//! The edit state: the one gateway through which the canvas is changed,
//! and the journal that makes every change undoable.

use crate::canvas::{duplicate_selection, selection_view, Canvas, Selection};
use crate::palette::{Color, PaletteView};
use crate::cell::{Attribute, Cell};
use crate::error::EditError;
use crate::geometry::Position;
use crate::journal::{
    force_ops, forced_doc, forced_layer, forced_ops, lemma_forced_apply_ops, lemma_forced_fit,
    lemma_forced_revert_ops,
};
use crate::journal::{
    apply_op, apply_ops, doc_of, lemma_record, lemma_revert_push, op_exact_at, op_views, ops_fit, perform, replay,
    revert_op, revert_ops, with_layers, DocView, EditOp, OpView, Transaction, TransactionView,
};
use crate::geometry::Size;
use crate::layer::{Layer, LayerView, Role};
use crate::palette::Palette;
use vstd::prelude::*;

verus! {

/// Where typing goes, and with which attribute and font page.
#[derive(Clone, Copy, Debug, PartialEq, Eq, Structural, Hash)]
pub struct Caret {
    pub position: Position,
    pub attribute: Attribute,
    pub font_page: usize,
}

/// Whether a drag gesture is in progress, and between which positions.
#[derive(Clone, Copy, Debug, PartialEq, Eq, Structural, Hash)]
pub enum DragState {
    Idle,
    Dragging { start: Position, cur: Position },
}

/// The mathematical content of an edit state.
#[verifier::ext_equal]
pub struct EditStateView {
    pub doc: DocView,
    pub caret: Caret,
    /// Committed transactions, oldest first.
    pub done: Seq<TransactionView>,
    /// Undone transactions; the last one is the next to redo.
    pub undone: Seq<TransactionView>,
    /// How many `begin_atomic_undo` calls are not yet matched.
    pub depth: usize,
    pub open_description: Seq<char>,
    /// What the open transaction has recorded so far.
    pub open_ops: Seq<OpView>,
    pub overlay: Option<LayerView>,
    pub drag: DragState,
}

pub struct EditState {
    canvas: Canvas,
    current_layer: usize,
    caret: Caret,
    done: Vec<Transaction>,
    undone: Vec<Transaction>,
    depth: usize,
    open_description: String,
    open_ops: Vec<EditOp>,
    overlay: Option<Layer>,
    drag: DragState,
}

/// The views of a stack of transactions.
pub open spec fn transaction_views(stack: Seq<Transaction>) -> Seq<TransactionView> {
    stack.map_values(|t: Transaction| t@)
}

/// Each transaction of the stack fits the document that the later ones,
/// taken back, leave.
pub open spec fn history_ok(done: Seq<TransactionView>, d: DocView) -> bool
    decreases done.len(),
{
    done.len() == 0 || (ops_fit(done.last().ops, d) && history_ok(
        done.drop_last(),
        revert_ops(done.last().ops, d),
    ))
}

/// Each undone transaction can be done again on the document that the
/// ones above it, redone, leave, and taken back from there.
pub open spec fn future_ok(undone: Seq<TransactionView>, d: DocView) -> bool
    decreases undone.len(),
{
    undone.len() == 0 || (revert_ops(undone.last().ops, apply_ops(undone.last().ops, d)) == d
        && future_ok(undone.drop_last(), apply_ops(undone.last().ops, d)))
}

impl EditStateView {
    /// The document as it was when the open transaction began.
    pub open spec fn base(self) -> DocView {
        revert_ops(self.open_ops, self.doc)
    }

    /// The journal is consistent with the document.
    pub open spec fn log_ok(self) -> bool {
        &&& self.depth == 0 ==> self.open_ops.len() == 0 && self.open_description.len() == 0
        &&& ops_fit(self.open_ops, self.doc)
        &&& history_ok(self.done, self.base())
        &&& future_ok(self.undone, self.base())
    }

    /// The state with the open transaction closed, whatever its depth: it
    /// is committed where it recorded anything and dropped where not.
    pub open spec fn committed(self) -> EditStateView {
        if self.open_ops.len() == 0 {
            EditStateView { depth: 0, open_description: Seq::empty(), ..self }
        } else {
            EditStateView {
                done: self.done.push(
                    TransactionView { description: self.open_description, ops: self.open_ops },
                ),
                undone: Seq::empty(),
                depth: 0,
                open_description: Seq::empty(),
                open_ops: Seq::empty(),
                ..self
            }
        }
    }

    /// The state after `begin_atomic_undo`.
    pub open spec fn after_begin(self, description: Seq<char>) -> EditStateView {
        if self.depth == 0 {
            EditStateView {
                depth: 1,
                open_description: description,
                open_ops: Seq::empty(),
                ..self
            }
        } else if self.depth < usize::MAX {
            EditStateView { depth: (self.depth + 1) as usize, ..self }
        } else {
            self
        }
    }

    /// The state after `end_atomic_undo`.
    pub open spec fn after_end(self) -> EditStateView {
        if self.depth == 0 {
            self
        } else if self.depth > 1 {
            EditStateView { depth: (self.depth - 1) as usize, ..self }
        } else {
            self.committed()
        }
    }

    /// The state after a mutator did `op`: the operation joins the open
    /// transaction, or makes up a transaction of its own where none is
    /// open.
    pub open spec fn recorded(self, op: OpView, description: Seq<char>) -> EditStateView {
        if self.depth > 0 {
            EditStateView {
                doc: apply_op(op, self.doc),
                open_ops: self.open_ops.push(op),
                ..self
            }
        } else {
            EditStateView {
                doc: apply_op(op, self.doc),
                done: self.done.push(TransactionView { description, ops: seq![op] }),
                undone: Seq::empty(),
                ..self
            }
        }
    }

    /// The state after the operations were done as one atomic group: they
    /// join the open transaction, or make up a transaction of their own
    /// where none is open. Without operations nothing changes.
    pub open spec fn atomically(self, description: Seq<char>, ops: Seq<OpView>) -> EditStateView {
        if ops.len() == 0 {
            self
        } else if self.depth > 0 {
            EditStateView {
                doc: apply_ops(ops, self.doc),
                open_ops: self.open_ops + ops,
                ..self
            }
        } else {
            EditStateView {
                doc: apply_ops(ops, self.doc),
                done: self.done.push(TransactionView { description, ops }),
                undone: Seq::empty(),
                ..self
            }
        }
    }

    /// Whether `undo` has a transaction to take back.
    pub open spec fn can_undo(self) -> bool {
        self.open_ops.len() > 0 || self.done.len() > 0
    }

    /// Whether `redo` has a transaction to do again.
    pub open spec fn can_redo(self) -> bool {
        self.open_ops.len() == 0 && self.undone.len() > 0
    }

    /// The state after `undo`: an open transaction that recorded anything
    /// is committed first; then the newest transaction is taken back and
    /// moved to the undone ones. Unchanged where there is none.
    pub open spec fn after_undo(self) -> EditStateView {
        let s = if self.open_ops.len() > 0 {
            self.committed()
        } else {
            self
        };
        if s.done.len() == 0 {
            s
        } else {
            EditStateView {
                doc: revert_ops(s.done.last().ops, s.doc),
                done: s.done.drop_last(),
                undone: s.undone.push(s.done.last()),
                ..s
            }
        }
    }

    /// The state after `redo`: the transaction undone last is done again
    /// and moved back. Unchanged where there is none.
    pub open spec fn after_redo(self) -> EditStateView {
        if !self.can_redo() {
            self
        } else {
            EditStateView {
                doc: apply_ops(self.undone.last().ops, self.doc),
                done: self.done.push(self.undone.last()),
                undone: self.undone.drop_last(),
                ..self
            }
        }
    }

    /// What `set_char` answers for `pos`.
    pub open spec fn set_char_result(self, pos: Position) -> Result<(), EditError> {
        match self.current() {
            None => Err(EditError::LayerOutOfRange),
            Some(l) => if l.locked {
                Err(EditError::LayerLocked)
            } else if !l.in_bounds(pos.x as int, pos.y as int) {
                Err(EditError::InvalidPosition)
            } else {
                Ok(())
            },
        }
    }

    /// The operation that `set_char` records.
    pub open spec fn set_char_op(self, pos: Position, cell: Cell) -> OpView {
        OpView::SetCell {
            layer: self.doc.current_layer,
            pos,
            old: self.current().unwrap().cell_at(pos.x as int, pos.y as int),
            new: cell,
        }
    }

    /// What `move_layer` answers.
    pub open spec fn move_layer_result(self) -> Result<(), EditError> {
        match self.current() {
            None => Err(EditError::LayerOutOfRange),
            Some(l) => if l.position_locked {
                Err(EditError::LayerLocked)
            } else {
                Ok(())
            },
        }
    }

    /// The operation that `move_layer` records.
    pub open spec fn move_layer_op(self, to: Position) -> OpView {
        OpView::MoveLayer {
            layer: self.doc.current_layer,
            from: self.current().unwrap().offset,
            to,
        }
    }

    /// Whether `later` differs from `self` in the document and in one atomic
    /// group of at least one operation, recorded under `description`: the
    /// group has extended the open transaction, or has been committed as one
    /// transaction where none was open. Taking the group back gives the
    /// document of `self` again.
    pub open spec fn grouped_into(self, later: EditStateView, description: Seq<char>) -> bool {
        &&& later.caret == self.caret
        &&& later.overlay == self.overlay
        &&& later.drag == self.drag
        &&& later.depth == self.depth
        &&& later.open_description == self.open_description
        &&& if self.depth > 0 {
            &&& later.done == self.done
            &&& later.undone == self.undone
            &&& later.open_ops.len() > self.open_ops.len()
            &&& later.open_ops.take(self.open_ops.len() as int) == self.open_ops
            &&& revert_ops(later.open_ops.skip(self.open_ops.len() as int), later.doc) == self.doc
        } else {
            &&& later.done.len() == self.done.len() + 1
            &&& later.done.drop_last() == self.done
            &&& later.done.last().description == description
            &&& later.done.last().ops.len() > 0
            &&& revert_ops(later.done.last().ops, later.doc) == self.doc
            &&& later.undone.len() == 0
            &&& later.open_ops.len() == 0
        }
    }

    /// What `join_overlay` answers.
    pub open spec fn join_result(self) -> Result<(), EditError> {
        if self.overlay is None {
            Ok(())
        } else {
            match self.current() {
                None => Err(EditError::LayerOutOfRange),
                Some(l) => if l.locked {
                    Err(EditError::LayerLocked)
                } else {
                    Ok(())
                },
            }
        }
    }

    /// The state with nothing but the overlay changed.
    pub open spec fn with_overlay(self, overlay: Option<LayerView>) -> EditStateView {
        EditStateView { overlay, ..self }
    }

    /// The state with nothing but the drag changed.
    pub open spec fn with_drag(self, drag: DragState) -> EditStateView {
        EditStateView { drag, ..self }
    }

    /// The state with every layer shown in `a`: those of the document and
    /// those that the journal holds, so that undoing and redoing bring back
    /// layers that are shown as the others are.
    pub open spec fn forced(self, a: Option<Attribute>) -> EditStateView {
        EditStateView {
            doc: forced_doc(self.doc, a),
            done: forced_transactions(self.done, a),
            undone: forced_transactions(self.undone, a),
            open_ops: forced_ops(self.open_ops, a),
            ..self
        }
    }

    /// The state with nothing but the caret changed.
    pub open spec fn with_caret(self, caret: Caret) -> EditStateView {
        EditStateView { caret, ..self }
    }

    /// The layer that the current-layer pointer names, if it names one.
    pub open spec fn current(self) -> Option<LayerView> {
        if self.doc.current_layer < self.doc.canvas.layers.len() {
            Some(self.doc.canvas.layers[self.doc.current_layer as int])
        } else {
            None
        }
    }
}

/// Committing a fitting transaction keeps the history consistent.
pub proof fn lemma_history_push(done: Seq<TransactionView>, t: TransactionView, d: DocView)
    requires
        ops_fit(t.ops, d),
        history_ok(done, revert_ops(t.ops, d)),
    ensures
        history_ok(done.push(t), d),
{
    assert(done.push(t).drop_last() =~= done);
    assert(done.push(t).last() == t);
}

/// A transaction of one exact operation fits the document after it.
pub proof fn lemma_single_op(op: OpView, d: DocView)
    requires
        op_exact_at(op, d),
    ensures
        ops_fit(seq![op], apply_op(op, d)),
        revert_ops(seq![op], apply_op(op, d)) == d,
{
    let ops = Seq::<OpView>::empty();
    lemma_record(ops, op, d);
    assert(ops.push(op) =~= seq![op]);
}

/// The scratch layer for a gesture on `l`: as large as `l` and at the same
/// offset, every cell transparent.
pub open spec fn overlay_for(l: LayerView) -> LayerView {
    LayerView {
        offset: l.offset,
        role: Role::Overlay,
        ..LayerView::fresh("overlay"@, l.width, l.height)
    }
}

/// Whether `p` comes before `(x, y)` when the cells are walked row by row.
pub open spec fn walked(p: (int, int), x: int, y: int) -> bool {
    p.1 < y || (p.1 == y && p.0 < x)
}

/// The cells of `base`, among those walked before `(x, y)`, on which
/// `over` is not transparent.
pub open spec fn stamp_set(base: LayerView, over: LayerView, x: int, y: int) -> Set<(int, int)> {
    Set::new(
        |p: (int, int)|
            base.in_bounds(p.0, p.1) && walked(p, x, y) && !over.cell_at(p.0, p.1).is_transparent(),
    )
}

/// Whether `over` is not transparent on some cell of `base` walked before
/// `(x, y)`.
pub open spec fn stamped_before(base: LayerView, over: LayerView, x: int, y: int) -> bool {
    exists|p: (int, int)| #[trigger] stamp_set(base, over, x, y).contains(p)
}

/// Whether `over` is not transparent on some cell of `base`.
pub open spec fn stamps_any(base: LayerView, over: LayerView) -> bool {
    stamped_before(base, over, 0, base.height)
}

/// `base` with the cells walked before `(x, y)` taken from `over` where
/// `over` is not transparent.
pub open spec fn merged_before(base: LayerView, over: LayerView, x: int, y: int) -> LayerView {
    LayerView {
        cells: Map::new(
            |p: (int, int)| base.in_bounds(p.0, p.1),
            |p: (int, int)|
                if stamp_set(base, over, x, y).contains(p) {
                    over.cell_at(p.0, p.1)
                } else {
                    base.cells[p]
                },
        ),
        ..base
    }
}

/// `base` with every cell taken from `over` on which `over` is not
/// transparent.
pub open spec fn merged(base: LayerView, over: LayerView) -> LayerView {
    merged_before(base, over, 0, base.height)
}

/// `d` with the layer at `cur` replaced.
pub open spec fn with_layer(d: DocView, cur: usize, layer: LayerView) -> DocView {
    with_layers(d, d.canvas.layers.update(cur as int, layer))
}

proof fn lemma_merge_step(d: DocView, cur: usize, over: LayerView, pos: Position)
    requires
        cur < d.canvas.layers.len(),
        d.canvas.layers[cur as int].wf(),
        d.canvas.layers[cur as int].in_bounds(pos.x as int, pos.y as int),
    ensures
        ({
            let base = d.canvas.layers[cur as int];
            let c = over.cell_at(pos.x as int, pos.y as int);
            let now = with_layer(d, cur, merged_before(base, over, pos.x as int, pos.y as int));
            let next = with_layer(d, cur, merged_before(base, over, pos.x + 1, pos.y as int));
            &&& c.is_transparent() ==> next == now && stamp_set(base, over, pos.x + 1, pos.y as int)
                == stamp_set(base, over, pos.x as int, pos.y as int)
            &&& !c.is_transparent() ==> apply_op(
                OpView::SetCell {
                    layer: cur,
                    pos,
                    old: base.cells[(pos.x as int, pos.y as int)],
                    new: c,
                },
                now,
            ) == next && stamp_set(base, over, pos.x + 1, pos.y as int).contains(
                (pos.x as int, pos.y as int),
            )
        }),
{
    let base = d.canvas.layers[cur as int];
    let c = over.cell_at(pos.x as int, pos.y as int);
    let now = with_layer(d, cur, merged_before(base, over, pos.x as int, pos.y as int));
    let next = with_layer(d, cur, merged_before(base, over, pos.x + 1, pos.y as int));
    if c.is_transparent() {
        assert(stamp_set(base, over, pos.x + 1, pos.y as int) =~= stamp_set(
            base,
            over,
            pos.x as int,
            pos.y as int,
        ));
        assert(next.canvas.layers[cur as int].cells =~= now.canvas.layers[cur as int].cells);
        assert(next.canvas.layers =~= now.canvas.layers);
        assert(next =~~= now);
    } else {
        let op = OpView::SetCell {
            layer: cur,
            pos,
            old: base.cells[(pos.x as int, pos.y as int)],
            new: c,
        };
        let a = apply_op(op, now);
        assert(a.canvas.layers[cur as int].cells =~= next.canvas.layers[cur as int].cells);
        assert(a.canvas.layers =~= next.canvas.layers);
        assert(a =~~= next);
    }
}

proof fn lemma_merge_row(d: DocView, cur: usize, over: LayerView, y: int)
    requires
        cur < d.canvas.layers.len(),
        d.canvas.layers[cur as int].wf(),
    ensures
        stamp_set(d.canvas.layers[cur as int], over, d.canvas.layers[cur as int].width, y)
            == stamp_set(d.canvas.layers[cur as int], over, 0, y + 1),
        merged_before(d.canvas.layers[cur as int], over, d.canvas.layers[cur as int].width, y)
            == merged_before(d.canvas.layers[cur as int], over, 0, y + 1),
        stamp_set(d.canvas.layers[cur as int], over, 0, 0) == Set::<(int, int)>::empty(),
        with_layer(d, cur, merged_before(d.canvas.layers[cur as int], over, 0, 0)) == d,
{
    let base = d.canvas.layers[cur as int];
    assert(stamp_set(base, over, base.width, y) =~= stamp_set(base, over, 0, y + 1));
    assert(merged_before(base, over, base.width, y).cells =~= merged_before(
        base,
        over,
        0,
        y + 1,
    ).cells);
    assert(stamp_set(base, over, 0, 0) =~= Set::<(int, int)>::empty());
    let z = with_layer(d, cur, merged_before(base, over, 0, 0));
    assert(z.canvas.layers[cur as int].cells =~= base.cells);
    assert(z.canvas.layers =~= d.canvas.layers);
    assert(z =~~= d);
}

/// One or two operations that are recorded inside a transaction opened for
/// them and closed after them, or inside a transaction that is open
/// already, are one atomic group. Under which descriptions the operations
/// were recorded does not matter.
pub proof fn lemma_group_of_two(
    s: EditStateView,
    description: Seq<char>,
    a: OpView,
    da: Seq<char>,
    b: OpView,
    db: Seq<char>,
)
    requires
        s.log_ok(),
    ensures
        s.depth == 0 ==> s.after_begin(description).recorded(a, da).recorded(b, db).after_end()
            == s.atomically(description, seq![a, b]),
        s.depth > 0 ==> s.recorded(a, da).recorded(b, db) == s.atomically(description, seq![a, b]),
        s.depth == 0 ==> s.after_begin(description).recorded(a, da).after_end() == s.atomically(
            description,
            seq![a],
        ),
        s.depth > 0 ==> s.recorded(a, da) == s.atomically(description, seq![a]),
{
    let two = seq![a, b];
    let one = seq![a];
    assert(two.drop_last() =~= one);
    assert(one.drop_last() =~= Seq::<OpView>::empty());
    assert(apply_ops(Seq::<OpView>::empty(), s.doc) == s.doc);
    assert(one.last() == a);
    assert(two.last() == b);
    assert(apply_ops(one, s.doc) == apply_op(a, s.doc));
    assert(apply_ops(two, s.doc) == apply_op(b, apply_op(a, s.doc)));
    if s.depth == 0 {
        assert(s.open_ops =~= Seq::empty());
        assert(s.open_description =~= Seq::empty());
        let t = s.after_begin(description).recorded(a, da).recorded(b, db);
        assert(t.open_ops =~= two);
        assert(t.after_end() =~~= s.atomically(description, two));
        let u = s.after_begin(description).recorded(a, da);
        assert(u.open_ops =~= one);
        assert(u.after_end() =~~= s.atomically(description, one));
    } else {
        assert(s.recorded(a, da).recorded(b, db).open_ops =~= s.open_ops + two);
        assert(s.recorded(a, da).recorded(b, db) =~~= s.atomically(description, two));
        assert(s.recorded(a, da).open_ops =~= s.open_ops + one);
        assert(s.recorded(a, da) =~~= s.atomically(description, one));
    }
}

/// The operation that `set_char` records is exact: taking it back gives
/// the document as it was.
pub proof fn lemma_set_char_exact(s: EditStateView, pos: Position, cell: Cell)
    requires
        s.set_char_result(pos) is Ok,
        s.current().unwrap().wf(),
    ensures
        op_exact_at(s.set_char_op(pos, cell), s.doc),
{
    let op = s.set_char_op(pos, cell);
    let d = s.doc;
    let lv = s.current().unwrap();
    let back = lv.with_cell(pos.x as int, pos.y as int, cell).with_cell(
        pos.x as int,
        pos.y as int,
        lv.cell_at(pos.x as int, pos.y as int),
    );
    assert(back.cells =~= lv.cells);
    assert(revert_op(op, apply_op(op, d)).canvas.layers =~= d.canvas.layers);
    assert(revert_op(op, apply_op(op, d)) =~~= d);
}

/// The transaction with the layers that its operations carry shown in
/// `a`.
pub open spec fn forced_transaction(t: TransactionView, a: Option<Attribute>) -> TransactionView {
    TransactionView { ops: forced_ops(t.ops, a), ..t }
}

/// The transactions, each with its layers shown in `a`.
pub open spec fn forced_transactions(stack: Seq<TransactionView>, a: Option<Attribute>) -> Seq<
    TransactionView,
> {
    stack.map_values(|t: TransactionView| forced_transaction(t, a))
}

proof fn lemma_forced_history(done: Seq<TransactionView>, d: DocView, a: Option<Attribute>)
    requires
        history_ok(done, d),
    ensures
        history_ok(forced_transactions(done, a), forced_doc(d, a)),
    decreases done.len(),
{
    if done.len() > 0 {
        let t = done.last();
        lemma_forced_fit(t.ops, d, a);
        lemma_forced_revert_ops(t.ops, d, a);
        lemma_forced_history(done.drop_last(), revert_ops(t.ops, d), a);
        assert(forced_transactions(done, a).drop_last() =~= forced_transactions(done.drop_last(), a));
        assert(forced_transactions(done, a).last() == forced_transaction(t, a));
    }
}

proof fn lemma_forced_future(undone: Seq<TransactionView>, d: DocView, a: Option<Attribute>)
    requires
        future_ok(undone, d),
    ensures
        future_ok(forced_transactions(undone, a), forced_doc(d, a)),
    decreases undone.len(),
{
    if undone.len() > 0 {
        let t = undone.last();
        lemma_forced_apply_ops(t.ops, d, a);
        lemma_forced_revert_ops(t.ops, apply_ops(t.ops, d), a);
        lemma_forced_future(undone.drop_last(), apply_ops(t.ops, d), a);
        assert(forced_transactions(undone, a).drop_last() =~= forced_transactions(
            undone.drop_last(),
            a,
        ));
        assert(forced_transactions(undone, a).last() == forced_transaction(t, a));
    }
}

/// The journal stays consistent with the document when all layers, those
/// that the journal holds included, are shown in another way.
pub proof fn lemma_forced_log_ok(s: EditStateView, a: Option<Attribute>)
    requires
        s.log_ok(),
    ensures
        s.forced(a).log_ok(),
{
    lemma_forced_fit(s.open_ops, s.doc, a);
    lemma_forced_revert_ops(s.open_ops, s.doc, a);
    lemma_forced_history(s.done, s.base(), a);
    lemma_forced_future(s.undone, s.base(), a);
}

/// Shows the layers that the transactions carry in `a`.
fn force_transactions(stack: &mut Vec<Transaction>, a: Option<Attribute>)
    requires
        forall|i: int| 0 <= i < old(stack)@.len() ==> (#[trigger] old(stack)@[i]).wf(),
    ensures
        forall|i: int| 0 <= i < final(stack)@.len() ==> (#[trigger] final(stack)@[i]).wf(),
        transaction_views(final(stack)@) == forced_transactions(transaction_views(old(stack)@), a),
{
    let n: usize = stack.len();
    let mut i: usize = 0;
    while i < n
        invariant
            n == stack@.len(),
            n == old(stack)@.len(),
            i <= n,
            forall|k: int| 0 <= k < n ==> (#[trigger] stack@[k]).wf(),
            forall|k: int|
                0 <= k < i ==> (#[trigger] stack@[k])@ == forced_transaction(old(stack)@[k]@, a),
            forall|k: int| i <= k < n ==> #[trigger] stack@[k] == old(stack)@[k],
        decreases n - i,
    {
        force_ops(&mut stack[i].ops, a);
        i += 1;
    }
    proof {
        assert(transaction_views(stack@) =~= forced_transactions(
            transaction_views(old(stack)@),
            a,
        ));
    }
}

/// The state after `n` calls of `undo`.
pub open spec fn undo_times(s: EditStateView, n: nat) -> EditStateView
    decreases n,
{
    if n == 0 {
        s
    } else {
        undo_times(s.after_undo(), (n - 1) as nat)
    }
}

/// The state after `n` calls of `redo`.
pub open spec fn redo_times(s: EditStateView, n: nat) -> EditStateView
    decreases n,
{
    if n == 0 {
        s
    } else {
        redo_times(s, (n - 1) as nat).after_redo()
    }
}

/// An undo leaves the journal consistent with the document.
pub proof fn lemma_undo_keeps_log_ok(s: EditStateView)
    requires
        s.log_ok(),
    ensures
        s.after_undo().log_ok(),
{
    let c = if s.open_ops.len() > 0 {
        s.committed()
    } else {
        s
    };
    if s.open_ops.len() > 0 {
        lemma_history_push(
            s.done,
            TransactionView { description: s.open_description, ops: s.open_ops },
            s.doc,
        );
    }
    assert(c.open_ops =~= Seq::empty());
    assert(c.log_ok());
    if c.done.len() > 0 {
        let t = c.done.last();
        let r = c.after_undo();
        assert(r.undone.drop_last() =~= c.undone);
        assert(r.undone.last() == t);
    }
}

/// A redo leaves the journal consistent with the document.
pub proof fn lemma_redo_keeps_log_ok(s: EditStateView)
    requires
        s.log_ok(),
    ensures
        s.after_redo().log_ok(),
{
    if s.can_redo() {
        assert(s.open_ops =~= Seq::empty());
        let t = s.undone.last();
        lemma_history_push(s.done, t, apply_ops(t.ops, s.doc));
    }
}

/// Undo, then redo: where there is a transaction to undo and the open
/// transaction has recorded nothing, the document, both stacks and
/// everything else are as they were before.
pub proof fn lemma_undo_then_redo(s: EditStateView)
    requires
        s.log_ok(),
        s.open_ops.len() == 0,
        s.done.len() > 0,
    ensures
        s.after_undo().can_redo(),
        s.after_undo().after_redo() == s,
{
    assert(s.open_ops =~= Seq::empty());
    let u = s.after_undo();
    assert(u.undone.last() == s.done.last());
    assert(u.undone.drop_last() =~= s.undone);
    assert(u.done.push(s.done.last()) =~= s.done);
    assert(u.after_redo() =~~= s);
}

/// Redo, then undo: where there is a transaction to redo, the document,
/// both stacks and everything else are as they were before.
pub proof fn lemma_redo_then_undo(s: EditStateView)
    requires
        s.log_ok(),
        s.can_redo(),
    ensures
        s.after_redo().can_undo(),
        s.after_redo().after_undo() == s,
{
    assert(s.open_ops =~= Seq::empty());
    let r = s.after_redo();
    assert(r.done.last() == s.undone.last());
    assert(r.done.drop_last() =~= s.done);
    assert(r.undone.push(s.undone.last()) =~= s.undone);
    assert(r.after_undo() =~~= s);
}

/// Undoing `n` committed transactions and then redoing `n` gives back the
/// state from which the undoing started: the canvas cell for cell, the
/// layers with their metadata, the current layer and both stacks.
pub proof fn lemma_undo_redo_round_trip(s: EditStateView, n: nat)
    requires
        s.log_ok(),
        s.open_ops.len() == 0,
        n <= s.done.len(),
    ensures
        redo_times(undo_times(s, n), n) == s,
    decreases n,
{
    if n > 0 {
        let u = s.after_undo();
        lemma_undo_keeps_log_ok(s);
        lemma_undo_then_redo(s);
        lemma_undo_redo_round_trip(u, (n - 1) as nat);
    }
}

impl View for EditState {
    type V = EditStateView;

    closed spec fn view(&self) -> EditStateView {
        EditStateView {
            doc: doc_of(&self.canvas, self.current_layer),
            caret: self.caret,
            done: transaction_views(self.done@),
            undone: transaction_views(self.undone@),
            depth: self.depth,
            open_description: self.open_description@,
            open_ops: op_views(self.open_ops@),
            overlay: match self.overlay {
                Some(l) => Some(l@),
                None => None,
            },
            drag: self.drag,
        }
    }
}

impl EditState {
    /// The parts are well formed and the journal is consistent with the
    /// document.
    pub closed spec fn wf(&self) -> bool {
        &&& self.canvas.wf()
        &&& forall|i: int| 0 <= i < self.done@.len() ==> (#[trigger] self.done@[i]).wf()
        &&& forall|i: int| 0 <= i < self.undone@.len() ==> (#[trigger] self.undone@[i]).wf()
        &&& forall|i: int| 0 <= i < self.open_ops@.len() ==> (#[trigger] self.open_ops@[i]).wf()
        &&& match self.overlay {
            Some(l) => l.wf(),
            None => true,
        }
        &&& self@.log_ok()
    }

    /// What well-formedness says of the content.
    pub proof fn lemma_wf_view(&self)
        requires
            self.wf(),
        ensures
            self@.log_ok(),
            forall|i: int|
                0 <= i < self@.doc.canvas.layers.len() ==> (
                #[trigger] self@.doc.canvas.layers[i]).wf(),
            self@.overlay matches Some(l) ==> l.wf(),
    {
        assert forall|i: int| 0 <= i < self@.doc.canvas.layers.len() implies (
        #[trigger] self@.doc.canvas.layers[i]).wf() by {
            self.canvas.layers@[i].lemma_view_wf();
        }
        match self.overlay {
            Some(l) => {
                l.lemma_view_wf();
            },
            None => {},
        }
    }

    /// An edit state over `canvas`, with the first layer current, an empty
    /// journal, no overlay and no drag.
    pub fn new(canvas: Canvas) -> (state: EditState)
        requires
            canvas.wf(),
        ensures
            state.wf(),
            state@.doc == (DocView { canvas: canvas@, current_layer: 0 }),
            state@.caret == (Caret {
                position: Position { x: 0, y: 0 },
                attribute: Attribute::spec_plain(),
                font_page: 0,
            }),
            state@.done.len() == 0,
            state@.undone.len() == 0,
            state@.depth == 0,
            state@.open_ops.len() == 0,
            state@.overlay is None,
            state@.drag == DragState::Idle,
    {
        let state = EditState {
            canvas,
            current_layer: 0,
            caret: Caret {
                position: Position { x: 0, y: 0 },
                attribute: Attribute::plain(),
                font_page: 0,
            },
            done: Vec::new(),
            undone: Vec::new(),
            depth: 0,
            open_description: String::new(),
            open_ops: Vec::new(),
            overlay: None,
            drag: DragState::Idle,
        };
        state
    }

    /// Opens a transaction. While one is open, a further call only counts:
    /// the operations that follow join the same transaction, under the
    /// description of the first call.
    pub fn begin_atomic_undo(&mut self, description: &str)
        requires
            old(self).wf(),
        ensures
            final(self).wf(),
            final(self)@ == old(self)@.after_begin(description@),
    {
        if self.depth == 0 {
            self.depth = 1;
            self.open_description = description.to_string();
            proof {
                assert(self@.open_ops =~= Seq::empty());
                assert(self@ =~~= old(self)@.after_begin(description@));
            }
        } else if self.depth < usize::MAX {
            self.depth = self.depth + 1;
        }
    }

    /// Closes the open transaction, whatever its depth.
    fn commit(&mut self)
        requires
            old(self).wf(),
        ensures
            final(self).wf(),
            final(self)@ == old(self)@.committed(),
    {
        let ghost before = self@;
        self.depth = 0;
        if self.open_ops.len() == 0 {
            self.open_description = String::new();
            proof {
                assert(self@ =~~= before.committed());
            }
        } else {
            let mut ops: Vec<EditOp> = Vec::new();
            let mut description: String = String::new();
            std::mem::swap(&mut ops, &mut self.open_ops);
            std::mem::swap(&mut description, &mut self.open_description);
            let t = Transaction { description, ops };
            proof {
                assert(t@ == (TransactionView {
                    description: before.open_description,
                    ops: before.open_ops,
                }));
                lemma_history_push(before.done, t@, before.doc);
            }
            self.done.push(t);
            self.undone = Vec::new();
            proof {
                assert(self@.done =~= before.done.push(t@));
                assert(self@.undone =~= Seq::empty());
                assert(self@.open_ops =~= Seq::empty());
                assert(self@ =~~= before.committed());
            }
        }
    }

    /// Closes one level of the open transaction. The outermost call commits
    /// it, unless it recorded nothing: then the journal stays as it was.
    /// Without an open transaction nothing happens.
    pub fn end_atomic_undo(&mut self)
        requires
            old(self).wf(),
        ensures
            final(self).wf(),
            final(self)@ == old(self)@.after_end(),
    {
        if self.depth == 0 {
        } else if self.depth > 1 {
            self.depth = self.depth - 1;
        } else {
            self.commit();
        }
    }

    /// Does `op` and records it.
    fn commit_op(&mut self, op: EditOp, description: &str)
        requires
            old(self).wf(),
            op.wf(),
            op_exact_at(op@, old(self)@.doc),
        ensures
            final(self).wf(),
            final(self)@ == old(self)@.recorded(op@, description@),
    {
        let ghost before = self@;
        perform(&mut self.canvas, &mut self.current_layer, &op, true);
        if self.depth > 0 {
            proof {
                lemma_record(before.open_ops, op@, before.doc);
            }
            self.open_ops.push(op);
            proof {
                assert(self@.open_ops =~= before.open_ops.push(op@));
                assert(self@ =~~= before.recorded(op@, description@));
            }
        } else {
            let mut ops: Vec<EditOp> = Vec::new();
            ops.push(op);
            let t = Transaction { description: description.to_string(), ops };
            proof {
                assert(t@.ops =~= seq![op@]);
                assert(before.open_ops =~= Seq::empty());
                lemma_single_op(op@, before.doc);
                lemma_history_push(before.done, t@, apply_op(op@, before.doc));
            }
            self.done.push(t);
            self.undone = Vec::new();
            proof {
                assert(self@.done =~= before.done.push(t@));
                assert(self@.undone =~= Seq::empty());
                assert(self@ =~~= before.recorded(op@, description@));
            }
        }
    }

    /// Takes back the newest transaction as one unit. A transaction that is
    /// still open and has recorded anything is committed first. Fails with
    /// `NothingToUndo`, and changes nothing, where there is no transaction.
    pub fn undo(&mut self) -> (r: Result<(), EditError>)
        requires
            old(self).wf(),
        ensures
            final(self).wf(),
            r == if old(self)@.can_undo() {
                Ok::<(), EditError>(())
            } else {
                Err::<(), EditError>(EditError::NothingToUndo)
            },
            final(self)@ == old(self)@.after_undo(),
    {
        if self.open_ops.len() > 0 {
            self.commit();
        }
        if self.done.len() == 0 {
            return Err(EditError::NothingToUndo);
        }
        let ghost mid = self@;
        assert(mid.open_ops =~= Seq::empty());
        let t = self.done.pop().unwrap();
        assert(t.wf());
        assert(t@ == mid.done.last());
        replay(&mut self.canvas, &mut self.current_layer, &t.ops, false);
        self.undone.push(t);
        proof {
            assert(self@.done =~= mid.done.drop_last());
            assert(self@.undone =~= mid.undone.push(t@));
            assert(self@.undone.drop_last() =~= mid.undone);
            assert(self@.open_ops =~= Seq::empty());
            assert(self@ =~~= old(self)@.after_undo());
        }
        Ok(())
    }

    /// Does the transaction undone last again as one unit. Fails with
    /// `NothingToRedo`, and changes nothing, where there is none, or where
    /// the open transaction has recorded anything.
    pub fn redo(&mut self) -> (r: Result<(), EditError>)
        requires
            old(self).wf(),
        ensures
            final(self).wf(),
            r == if old(self)@.can_redo() {
                Ok::<(), EditError>(())
            } else {
                Err::<(), EditError>(EditError::NothingToRedo)
            },
            final(self)@ == old(self)@.after_redo(),
    {
        if self.open_ops.len() > 0 || self.undone.len() == 0 {
            return Err(EditError::NothingToRedo);
        }
        let ghost mid = self@;
        assert(mid.open_ops =~= Seq::empty());
        let t = self.undone.pop().unwrap();
        assert(t.wf());
        assert(t@ == mid.undone.last());
        replay(&mut self.canvas, &mut self.current_layer, &t.ops, true);
        proof {
            lemma_history_push(mid.done, t@, apply_ops(t@.ops, mid.doc));
        }
        self.done.push(t);
        proof {
            assert(self@.undone =~= mid.undone.drop_last());
            assert(self@.done =~= mid.done.push(t@));
            assert(self@.open_ops =~= Seq::empty());
            assert(self@ =~~= old(self)@.after_redo());
        }
        Ok(())
    }

    /// Whether `undo` has a transaction to take back.
    pub fn can_undo(&self) -> (r: bool)
        ensures
            r == self@.can_undo(),
    {
        self.open_ops.len() > 0 || self.done.len() > 0
    }

    /// Whether `redo` has a transaction to do again.
    pub fn can_redo(&self) -> (r: bool)
        ensures
            r == self@.can_redo(),
    {
        self.open_ops.len() == 0 && self.undone.len() > 0
    }

    /// How many committed transactions `undo` could take back.
    pub fn undo_stack_len(&self) -> (n: usize)
        ensures
            n == self@.done.len(),
    {
        self.done.len()
    }

    /// How many undone transactions `redo` could do again.
    pub fn redo_stack_len(&self) -> (n: usize)
        ensures
            n == self@.undone.len(),
    {
        self.undone.len()
    }

    /// Writes `cell` at `pos` of the current layer, in the layer's own
    /// coordinates, and journals it. Fails with `LayerOutOfRange` where the
    /// current-layer pointer names no layer, with `LayerLocked` where the
    /// layer is locked, and with `InvalidPosition` where `pos` lies outside
    /// the layer; nothing changes then.
    pub fn set_char(&mut self, pos: Position, cell: Cell) -> (r: Result<(), EditError>)
        requires
            old(self).wf(),
        ensures
            final(self).wf(),
            r == old(self)@.set_char_result(pos),
            r is Ok ==> final(self)@ == old(self)@.recorded(
                old(self)@.set_char_op(pos, cell),
                "set char"@,
            ),
            r is Err ==> final(self)@ == old(self)@,
    {
        if self.current_layer >= self.canvas.layers.len() {
            return Err(EditError::LayerOutOfRange);
        }
        let layer = &self.canvas.layers[self.current_layer];
        proof {
            layer.lemma_view_wf();
        }
        if layer.is_locked() {
            return Err(EditError::LayerLocked);
        }
        if pos.x < 0 || pos.y < 0 || pos.x >= layer.get_width() || pos.y >= layer.get_height() {
            return Err(EditError::InvalidPosition);
        }
        let old_cell: Cell = layer.get(pos);
        let op = EditOp::SetCell { layer: self.current_layer, pos, old: old_cell, new: cell };
        proof {
            let d = self@.doc;
            let lv = d.canvas.layers[self.current_layer as int];
            assert(lv == layer@);
            let back = lv.with_cell(pos.x as int, pos.y as int, cell).with_cell(
                pos.x as int,
                pos.y as int,
                old_cell,
            );
            assert(back.cells =~= lv.cells);
            assert(revert_op(op@, apply_op(op@, d)).canvas.layers =~= d.canvas.layers);
            assert(revert_op(op@, apply_op(op@, d)) =~~= d);
        }
        self.commit_op(op, "set char");
        Ok(())
    }

    /// Makes the layer at `index` the current one, and journals it. Fails
    /// with `IndexOutOfRange` where `index` names no layer; nothing changes
    /// then.
    pub fn set_current_layer(&mut self, index: usize) -> (r: Result<(), EditError>)
        requires
            old(self).wf(),
        ensures
            final(self).wf(),
            r == if index < old(self)@.doc.canvas.layers.len() {
                Ok::<(), EditError>(())
            } else {
                Err::<(), EditError>(EditError::IndexOutOfRange)
            },
            r is Ok ==> final(self)@ == old(self)@.recorded(
                OpView::SetCurrentLayer { from: old(self)@.doc.current_layer, to: index },
                "select layer"@,
            ),
            r is Err ==> final(self)@ == old(self)@,
    {
        if index >= self.canvas.layers.len() {
            return Err(EditError::IndexOutOfRange);
        }
        let op = EditOp::SetCurrentLayer { from: self.current_layer, to: index };
        proof {
            assert(revert_op(op@, apply_op(op@, self@.doc)) =~~= self@.doc);
        }
        self.commit_op(op, "select layer");
        Ok(())
    }

    /// Places the current layer at `to`, and journals it. Fails with
    /// `LayerOutOfRange` where the current-layer pointer names no layer, and
    /// with `LayerLocked` where the layer's position is locked; nothing
    /// changes then.
    pub fn move_layer(&mut self, to: Position) -> (r: Result<(), EditError>)
        requires
            old(self).wf(),
        ensures
            final(self).wf(),
            r == old(self)@.move_layer_result(),
            r is Ok ==> final(self)@ == old(self)@.recorded(
                old(self)@.move_layer_op(to),
                "move layer"@,
            ),
            r is Err ==> final(self)@ == old(self)@,
    {
        if self.current_layer >= self.canvas.layers.len() {
            return Err(EditError::LayerOutOfRange);
        }
        let layer = &self.canvas.layers[self.current_layer];
        if layer.is_position_locked() {
            return Err(EditError::LayerLocked);
        }
        let op = EditOp::MoveLayer { layer: self.current_layer, from: layer.get_offset(), to };
        proof {
            let d = self@.doc;
            assert(d.canvas.layers[self.current_layer as int] == layer@);
            assert(revert_op(op@, apply_op(op@, d)).canvas.layers =~= d.canvas.layers);
            assert(revert_op(op@, apply_op(op@, d)) =~~= d);
        }
        self.commit_op(op, "move layer");
        Ok(())
    }

    /// Shows or hides the layer at `index`, and journals it. Fails with
    /// `IndexOutOfRange` where `index` names no layer; nothing changes then.
    pub fn set_layer_visible(&mut self, index: usize, visible: bool) -> (r: Result<(), EditError>)
        requires
            old(self).wf(),
        ensures
            final(self).wf(),
            r == if index < old(self)@.doc.canvas.layers.len() {
                Ok::<(), EditError>(())
            } else {
                Err::<(), EditError>(EditError::IndexOutOfRange)
            },
            r is Ok ==> final(self)@ == old(self)@.recorded(
                OpView::SetVisible {
                    layer: index,
                    from: old(self)@.doc.canvas.layers[index as int].visible,
                    to: visible,
                },
                "layer visibility"@,
            ),
            r is Err ==> final(self)@ == old(self)@,
    {
        if index >= self.canvas.layers.len() {
            return Err(EditError::IndexOutOfRange);
        }
        let layer = &self.canvas.layers[index];
        let op = EditOp::SetVisible { layer: index, from: layer.is_visible(), to: visible };
        proof {
            let d = self@.doc;
            assert(d.canvas.layers[index as int] == layer@);
            assert(revert_op(op@, apply_op(op@, d)).canvas.layers =~= d.canvas.layers);
            assert(revert_op(op@, apply_op(op@, d)) =~~= d);
        }
        self.commit_op(op, "layer visibility");
        Ok(())
    }

    /// Exchanges the layers at `i` and `j`, and journals it. Fails with
    /// `IndexOutOfRange` where either names no layer; nothing changes then.
    pub fn swap_layers(&mut self, i: usize, j: usize) -> (r: Result<(), EditError>)
        requires
            old(self).wf(),
        ensures
            final(self).wf(),
            r == if i < old(self)@.doc.canvas.layers.len() && j < old(
                self,
            )@.doc.canvas.layers.len() {
                Ok::<(), EditError>(())
            } else {
                Err::<(), EditError>(EditError::IndexOutOfRange)
            },
            r is Ok ==> final(self)@ == old(self)@.recorded(
                OpView::SwapLayers { i, j },
                "swap layers"@,
            ),
            r is Err ==> final(self)@ == old(self)@,
    {
        let n: usize = self.canvas.layers.len();
        if i >= n || j >= n {
            return Err(EditError::IndexOutOfRange);
        }
        let op = EditOp::SwapLayers { i, j };
        proof {
            let d = self@.doc;
            assert(revert_op(op@, apply_op(op@, d)).canvas.layers =~= d.canvas.layers);
            assert(revert_op(op@, apply_op(op@, d)) =~~= d);
        }
        self.commit_op(op, "swap layers");
        Ok(())
    }

    /// Puts `layer` at `index` of the stack, and journals it. Fails with
    /// `IndexOutOfRange` where `index` is beyond the end; nothing changes
    /// then.
    pub fn insert_layer(&mut self, index: usize, layer: Layer) -> (r: Result<(), EditError>)
        requires
            old(self).wf(),
            layer.wf(),
        ensures
            final(self).wf(),
            r == if index <= old(self)@.doc.canvas.layers.len() {
                Ok::<(), EditError>(())
            } else {
                Err::<(), EditError>(EditError::IndexOutOfRange)
            },
            r is Ok ==> final(self)@ == old(self)@.recorded(
                OpView::InsertLayer { index, layer: layer@ },
                "add layer"@,
            ),
            r is Err ==> final(self)@ == old(self)@,
    {
        if index > self.canvas.layers.len() {
            return Err(EditError::IndexOutOfRange);
        }
        let op = EditOp::InsertLayer { index, layer };
        proof {
            let d = self@.doc;
            assert(revert_op(op@, apply_op(op@, d)).canvas.layers =~= d.canvas.layers);
            assert(revert_op(op@, apply_op(op@, d)) =~~= d);
        }
        self.commit_op(op, "add layer");
        Ok(())
    }

    /// Takes the layer at `index` off the stack, and journals it. Fails with
    /// `IndexOutOfRange` where `index` names no layer; nothing changes then.
    pub fn remove_layer(&mut self, index: usize) -> (r: Result<(), EditError>)
        requires
            old(self).wf(),
        ensures
            final(self).wf(),
            r == if index < old(self)@.doc.canvas.layers.len() {
                Ok::<(), EditError>(())
            } else {
                Err::<(), EditError>(EditError::IndexOutOfRange)
            },
            r is Ok ==> final(self)@ == old(self)@.recorded(
                OpView::RemoveLayer {
                    index,
                    layer: old(self)@.doc.canvas.layers[index as int],
                },
                "remove layer"@,
            ),
            r is Err ==> final(self)@ == old(self)@,
    {
        if index >= self.canvas.layers.len() {
            return Err(EditError::IndexOutOfRange);
        }
        let copy = self.canvas.layers[index].duplicate();
        let op = EditOp::RemoveLayer { index, layer: copy };
        proof {
            let d = self@.doc;
            assert(d.canvas.layers[index as int] == self.canvas.layers@[index as int]@);
            assert(revert_op(op@, apply_op(op@, d)).canvas.layers =~= d.canvas.layers);
            assert(revert_op(op@, apply_op(op@, d)) =~~= d);
        }
        self.commit_op(op, "remove layer");
        Ok(())
    }

    /// Replaces the palette as a whole, and journals it as one operation
    /// that holds the palette it replaced.
    pub fn switch_to_palette(&mut self, palette: Palette)
        requires
            old(self).wf(),
        ensures
            final(self).wf(),
            final(self)@ == old(self)@.recorded(
                OpView::SwitchPalette { old: old(self)@.doc.canvas.palette, new: palette@ },
                "switch palette"@,
            ),
    {
        let op = EditOp::SwitchPalette { old: self.canvas.palette.duplicate(), new: palette };
        proof {
            let d = self@.doc;
            assert(revert_op(op@, apply_op(op@, d)) =~~= d);
        }
        self.commit_op(op, "switch palette");
    }

    /// Whether a transaction is open.
    pub fn in_transaction(&self) -> (r: bool)
        ensures
            r == (self@.depth > 0),
    {
        self.depth > 0
    }

    /// The cell at `pos` of the current layer, in the layer's own
    /// coordinates; the transparent cell outside the layer, and where the
    /// current-layer pointer names no layer.
    pub fn get_char(&self, pos: Position) -> (cell: Cell)
        requires
            self.wf(),
        ensures
            cell == match self@.current() {
                Some(l) => l.cell_at(pos.x as int, pos.y as int),
                None => Cell::spec_transparent(),
            },
    {
        if self.current_layer < self.canvas.layers.len() {
            self.canvas.layers[self.current_layer].get(pos)
        } else {
            Cell::transparent()
        }
    }

    /// Gives the canvas another size, and journals it. Layers keep theirs.
    pub fn set_size(&mut self, size: Size)
        requires
            old(self).wf(),
        ensures
            final(self).wf(),
            final(self)@ == old(self)@.recorded(
                OpView::Resize { from: old(self)@.doc.canvas.size, to: size },
                "resize"@,
            ),
    {
        let op = EditOp::Resize { from: self.canvas.size, to: size };
        proof {
            let d = self@.doc;
            assert(revert_op(op@, apply_op(op@, d)) =~~= d);
        }
        self.commit_op(op, "resize");
    }

    /// Replaces the selection, and journals it.
    pub fn set_selection(&mut self, selection: Option<Selection>)
        requires
            old(self).wf(),
        ensures
            final(self).wf(),
            final(self)@ == old(self)@.recorded(
                OpView::Select {
                    old: old(self)@.doc.canvas.selection,
                    new: selection_view(selection),
                },
                "select"@,
            ),
    {
        let op = EditOp::Select { old: duplicate_selection(&self.canvas.selection), new: selection };
        proof {
            let d = self@.doc;
            assert(revert_op(op@, apply_op(op@, d)) =~~= d);
        }
        self.commit_op(op, "select");
    }

    /// The index of the colour `(r, g, b)` in the palette, to which it is
    /// appended where the palette does not hold it yet. The longer palette
    /// replaces the old one as a whole, which is journaled. Fails with
    /// `IndexOutOfRange`, and changes nothing, where the colour is new and
    /// its index would not fit `u32`.
    pub fn insert_palette_color(&mut self, r: u8, g: u8, b: u8) -> (res: Result<u32, EditError>)
        requires
            old(self).wf(),
        ensures
            final(self).wf(),
            ({
                let color = Color { r, g, b };
                let palette = old(self)@.doc.canvas.palette;
                let i = palette.first_index_of(color);
                if i > u32::MAX {
                    &&& res == Err::<u32, EditError>(EditError::IndexOutOfRange)
                    &&& final(self)@ == old(self)@
                } else if i < palette.colors.len() {
                    &&& res == Ok::<u32, EditError>(i as u32)
                    &&& final(self)@ == old(self)@
                } else {
                    &&& res == Ok::<u32, EditError>(i as u32)
                    &&& final(self)@ == old(self)@.recorded(
                        OpView::SwitchPalette {
                            old: palette,
                            new: PaletteView { colors: palette.colors.push(color), ..palette },
                        },
                        "switch palette"@,
                    )
                }
            }),
    {
        let mut longer = self.canvas.palette.duplicate();
        let before: usize = longer.len();
        let res = longer.insert_color_rgb(r, g, b);
        if longer.len() != before {
            self.switch_to_palette(longer);
        }
        res
    }

    /// Takes `canvas` as the document, as after loading a file: the journal
    /// is emptied, since it speaks of the document that was there before,
    /// and the overlay is dropped. The caret and the current-layer pointer
    /// stay, so the pointer may name no layer afterwards.
    pub fn reload(&mut self, canvas: Canvas)
        requires
            old(self).wf(),
            canvas.wf(),
        ensures
            final(self).wf(),
            final(self)@ == (EditStateView {
                doc: DocView { canvas: canvas@, current_layer: old(self)@.doc.current_layer },
                done: Seq::empty(),
                undone: Seq::empty(),
                depth: 0,
                open_description: Seq::empty(),
                open_ops: Seq::empty(),
                overlay: None,
                ..old(self)@
            }),
    {
        self.canvas = canvas;
        self.done = Vec::new();
        self.undone = Vec::new();
        self.depth = 0;
        self.open_description = String::new();
        self.open_ops = Vec::new();
        self.overlay = None;
        proof {
            assert(self@.done =~= Seq::empty());
            assert(self@.undone =~= Seq::empty());
            assert(self@.open_ops =~= Seq::empty());
            assert(self@.open_description =~= Seq::empty());
        }
    }

    /// Makes the layer at `index` current without journaling it, as after
    /// loading a file. Nothing happens while the journal holds anything or
    /// where `index` names no layer; the answer says whether it was done.
    pub fn reset_current_layer(&mut self, index: usize) -> (done: bool)
        requires
            old(self).wf(),
        ensures
            final(self).wf(),
            done == (old(self)@.done.len() == 0 && old(self)@.undone.len() == 0 && old(
                self,
            )@.open_ops.len() == 0 && index < old(self)@.doc.canvas.layers.len()),
            final(self)@ == if done {
                EditStateView {
                    doc: DocView { current_layer: index, ..old(self)@.doc },
                    ..old(self)@
                }
            } else {
                old(self)@
            },
    {
        if self.done.len() == 0 && self.undone.len() == 0 && self.open_ops.len() == 0 && index
            < self.canvas.layers.len() {
            proof {
                assert(self@.open_ops =~= Seq::empty());
                assert(self@.done =~= Seq::empty());
                assert(self@.undone =~= Seq::empty());
            }
            self.current_layer = index;
            proof {
                assert(self@.open_ops =~= Seq::empty());
                assert(self@.done =~= Seq::empty());
                assert(self@.undone =~= Seq::empty());
            }
            true
        } else {
            false
        }
    }

    /// Shows every layer in the attribute `a`, or in its own attributes
    /// where `a` is none. This is a matter of display and is not journaled;
    /// the layers that the journal holds follow, so that the journal stays
    /// consistent with the document.
    pub fn set_forced_output_attribute(&mut self, a: Option<Attribute>)
        requires
            old(self).wf(),
        ensures
            final(self).wf(),
            final(self)@ == old(self)@.forced(a),
    {
        let ghost before = self@;
        proof {
            lemma_forced_log_ok(before, a);
        }
        let n: usize = self.canvas.layers.len();
        let ghost layers0 = self.canvas@.layers;
        let mut i: usize = 0;
        while i < n
            invariant
                n == self.canvas.layers@.len(),
                n == layers0.len(),
                i <= n,
                self.canvas.wf(),
                self.canvas.size == old(self).canvas.size,
                self.canvas.palette == old(self).canvas.palette,
                self.canvas.selection == old(self).canvas.selection,
                self.current_layer == old(self).current_layer,
                self.caret == old(self).caret,
                self.done == old(self).done,
                self.undone == old(self).undone,
                self.depth == old(self).depth,
                self.open_description == old(self).open_description,
                self.open_ops == old(self).open_ops,
                self.overlay == old(self).overlay,
                self.drag == old(self).drag,
                forall|k: int| 0 <= k < i ==> (#[trigger] self.canvas.layers@[k])@ == forced_layer(layers0[k], a),
                forall|k: int| i <= k < n ==> (#[trigger] self.canvas.layers@[k])@ == layers0[k],
            decreases n - i,
        {
            self.canvas.layers[i].set_forced_output_attribute(a);
            i += 1;
        }
        force_transactions(&mut self.done, a);
        force_transactions(&mut self.undone, a);
        force_ops(&mut self.open_ops, a);
        proof {
            assert(self@.doc.canvas.layers =~= forced_doc(before.doc, a).canvas.layers);
            assert(self@ =~~= before.forced(a));
        }
    }

    /// The index of the current layer.
    pub fn get_current_layer(&self) -> (index: usize)
        ensures
            index == self@.doc.current_layer,
    {
        self.current_layer
    }

    /// The current layer, where the pointer names one.
    pub fn get_cur_layer(&self) -> (r: Option<&Layer>)
        requires
            self.wf(),
        ensures
            match r {
                Some(l) => l.wf() && self@.current() == Some(l@),
                None => self@.current() is None,
            },
    {
        if self.current_layer < self.canvas.layers.len() {
            Some(&self.canvas.layers[self.current_layer])
        } else {
            None
        }
    }

    /// The canvas, for reading.
    pub fn get_buffer(&self) -> (canvas: &Canvas)
        requires
            self.wf(),
        ensures
            canvas.wf(),
            canvas@ == self@.doc.canvas,
    {
        &self.canvas
    }

    pub fn get_caret(&self) -> (caret: Caret)
        ensures
            caret == self@.caret,
    {
        self.caret
    }

    /// Replaces the caret. The caret is not journaled.
    pub fn set_caret(&mut self, caret: Caret)
        requires
            old(self).wf(),
        ensures
            final(self).wf(),
            final(self)@ == old(self)@.with_caret(caret),
    {
        self.caret = caret;
    }

    /// Gives the caret another attribute.
    pub fn set_caret_attribute(&mut self, attribute: Attribute)
        requires
            old(self).wf(),
        ensures
            final(self).wf(),
            final(self)@ == old(self)@.with_caret(Caret { attribute, ..old(self)@.caret }),
    {
        self.caret.attribute = attribute;
    }

    /// Moves the caret.
    pub fn set_caret_position(&mut self, position: Position)
        requires
            old(self).wf(),
        ensures
            final(self).wf(),
            final(self)@ == old(self)@.with_caret(Caret { position, ..old(self)@.caret }),
    {
        self.caret.position = position;
    }

    /// Gives the caret another font page.
    pub fn set_caret_font_page(&mut self, font_page: usize)
        requires
            old(self).wf(),
        ensures
            final(self).wf(),
            final(self)@ == old(self)@.with_caret(Caret { font_page, ..old(self)@.caret }),
    {
        self.caret.font_page = font_page;
    }

    /// Where the gesture in progress began and where it is now.
    pub fn get_drag(&self) -> (drag: DragState)
        ensures
            drag == self@.drag,
    {
        self.drag
    }

    /// Records the state of the gesture. The drag is not journaled.
    pub fn set_drag(&mut self, drag: DragState)
        requires
            old(self).wf(),
        ensures
            final(self).wf(),
            final(self)@ == old(self)@.with_drag(drag),
    {
        self.drag = drag;
    }

    /// Replaces the overlay by an empty one that covers the current layer;
    /// there is none where the current-layer pointer names no layer.
    pub fn clear_overlay_layer(&mut self)
        requires
            old(self).wf(),
        ensures
            final(self).wf(),
            final(self)@ == old(self)@.with_overlay(
                match old(self)@.current() {
                    Some(l) => Some(overlay_for(l)),
                    None => None,
                },
            ),
    {
        if self.current_layer < self.canvas.layers.len() {
            let layer = &self.canvas.layers[self.current_layer];
            proof {
                layer.lemma_view_wf();
            }
            let mut overlay = Layer::new("overlay", layer.get_size());
            overlay.set_offset(layer.get_offset());
            overlay.set_role(Role::Overlay);
            self.overlay = Some(overlay);
        } else {
            self.overlay = None;
        }
    }

    /// Discards the overlay.
    pub fn remove_overlay(&mut self)
        requires
            old(self).wf(),
        ensures
            final(self).wf(),
            final(self)@ == old(self)@.with_overlay(None),
    {
        self.overlay = None;
    }

    /// The overlay cell at `pos`; the transparent cell outside the overlay
    /// and where there is none.
    pub fn overlay_cell(&self, pos: Position) -> (cell: Cell)
        requires
            self.wf(),
        ensures
            cell == match self@.overlay {
                Some(o) => o.cell_at(pos.x as int, pos.y as int),
                None => Cell::spec_transparent(),
            },
    {
        match &self.overlay {
            Some(o) => o.get(pos),
            None => Cell::transparent(),
        }
    }

    /// Writes `cell` at `pos` of the overlay. Nothing happens outside the
    /// overlay and where there is none.
    pub fn overlay_put(&mut self, pos: Position, cell: Cell)
        requires
            old(self).wf(),
        ensures
            final(self).wf(),
            final(self)@ == old(self)@.with_overlay(
                match old(self)@.overlay {
                    Some(o) => Some(o.with_cell(pos.x as int, pos.y as int, cell)),
                    None => None,
                },
            ),
    {
        match &mut self.overlay {
            Some(o) => {
                o.put(pos, cell);
            },
            None => {},
        }
    }

    /// Merges the overlay into the current layer and discards it: every
    /// cell of the layer on which the overlay is not transparent takes the
    /// overlay's cell. All of it is one atomic group in the journal, and
    /// nothing is recorded where the overlay is transparent throughout.
    ///
    /// Fails with `LayerOutOfRange` where there is an overlay and the
    /// current-layer pointer names no layer, and with `LayerLocked` where
    /// the layer is locked; the overlay is discarded all the same, and
    /// nothing else changes.
    pub fn join_overlay(&mut self, description: &str) -> (r: Result<(), EditError>)
        requires
            old(self).wf(),
        ensures
            final(self).wf(),
            r == old(self)@.join_result(),
            r is Err || old(self)@.overlay is None || !stamps_any(
                old(self)@.current().unwrap(),
                old(self)@.overlay.unwrap(),
            ) ==> final(self)@ == old(self)@.with_overlay(None),
            r is Ok && old(self)@.overlay is Some && stamps_any(
                old(self)@.current().unwrap(),
                old(self)@.overlay.unwrap(),
            ) ==> final(self)@.doc == with_layer(
                old(self)@.doc,
                old(self)@.doc.current_layer,
                merged(old(self)@.current().unwrap(), old(self)@.overlay.unwrap()),
            ) && old(self)@.with_overlay(None).grouped_into(final(self)@, description@),
    {
        let ghost s0 = self@;
        let mut taken: Option<Layer> = None;
        std::mem::swap(&mut taken, &mut self.overlay);
        assert(self@ == s0.with_overlay(None));
        let over: Layer = match taken {
            None => {
                return Ok(());
            },
            Some(o) => o,
        };
        proof {
            self.lemma_wf_view();
        }
        let (w, h, locked): (i32, i32, bool) = match self.get_cur_layer() {
            None => {
                return Err(EditError::LayerOutOfRange);
            },
            Some(layer) => (layer.get_width(), layer.get_height(), layer.is_locked()),
        };
        if locked {
            return Err(EditError::LayerLocked);
        }
        let ghost l0 = s0.current().unwrap();
        let ghost cur = s0.doc.current_layer;
        let ghost ov = over@;
        let nested: bool = self.in_transaction();
        if !nested {
            self.begin_atomic_undo(description);
        }
        let ghost s1 = self@;
        let ghost mut fresh: Seq<OpView> = Seq::empty();
        proof {
            lemma_merge_row(s1.doc, cur, ov, 0);
            assert(self@.open_ops =~= s1.open_ops + fresh);
        }
        let mut y: i32 = 0;
        while y < h
            invariant
                self.wf(),
                over.wf(),
                over@ == ov,
                0 <= y <= h,
                l0.wf(),
                l0.width == w,
                l0.height == h,
                !l0.locked,
                s1.doc.current_layer == cur,
                cur < s1.doc.canvas.layers.len(),
                s1.doc.canvas.layers[cur as int] == l0,
                s1.depth > 0,
                self@.caret == s1.caret,
                self@.overlay == s1.overlay,
                self@.drag == s1.drag,
                self@.done == s1.done,
                self@.undone == s1.undone,
                self@.depth == s1.depth,
                self@.open_description == s1.open_description,
                self@.open_ops == s1.open_ops + fresh,
                revert_ops(fresh, self@.doc) == s1.doc,
                fresh.len() > 0 <==> stamped_before(l0, ov, 0, y as int),
                self@.doc == with_layer(s1.doc, cur, merged_before(l0, ov, 0, y as int)),
            decreases h - y,
        {
            let mut x: i32 = 0;
            while x < w
                invariant
                    self.wf(),
                    over.wf(),
                    over@ == ov,
                    0 <= y < h,
                    0 <= x <= w,
                    l0.wf(),
                    l0.width == w,
                    l0.height == h,
                    !l0.locked,
                    s1.doc.current_layer == cur,
                    cur < s1.doc.canvas.layers.len(),
                    s1.doc.canvas.layers[cur as int] == l0,
                    s1.depth > 0,
                    self@.caret == s1.caret,
                    self@.overlay == s1.overlay,
                    self@.drag == s1.drag,
                    self@.done == s1.done,
                    self@.undone == s1.undone,
                    self@.depth == s1.depth,
                    self@.open_description == s1.open_description,
                    self@.open_ops == s1.open_ops + fresh,
                    revert_ops(fresh, self@.doc) == s1.doc,
                    fresh.len() > 0 <==> stamped_before(l0, ov, x as int, y as int),
                    self@.doc == with_layer(s1.doc, cur, merged_before(l0, ov, x as int, y as int)),
                decreases w - x,
            {
                let pos = Position { x, y };
                let c: Cell = over.get(pos);
                proof {
                    lemma_merge_step(s1.doc, cur, ov, pos);
                }
                if !c.transparent_here() {
                    let ghost mid = self@;
                    assert(mid.current() == Some(merged_before(l0, ov, x as int, y as int)));
                    let res = self.set_char(pos, c);
                    assert(res is Ok);
                    proof {
                        let op = mid.set_char_op(pos, c);
                        assert(op == (OpView::SetCell {
                            layer: cur,
                            pos,
                            old: l0.cells[(x as int, y as int)],
                            new: c,
                        }));
                        lemma_set_char_exact(mid, pos, c);
                        lemma_revert_push(fresh, op, mid.doc);
                        assert(self@.open_ops =~= s1.open_ops + fresh.push(op));
                        fresh = fresh.push(op);
                    }
                }
                x += 1;
            }
            proof {
                lemma_merge_row(s1.doc, cur, ov, y as int);
            }
            y += 1;
        }
        if !nested {
            self.end_atomic_undo();
            proof {
                assert(s1.open_ops =~= Seq::empty());
                assert(s1.open_ops + fresh =~= fresh);
                if fresh.len() > 0 {
                    assert(self@.done.drop_last() =~= s0.done);
                }
                assert(self@.open_description =~= s0.open_description);
                assert(self@.open_ops =~= s0.open_ops);
            }
        } else {
            proof {
                assert(self@.open_ops.take(s0.open_ops.len() as int) =~= s0.open_ops);
                assert(self@.open_ops.skip(s0.open_ops.len() as int) =~= fresh);
            }
        }
        proof {
            if fresh.len() == 0 {
                lemma_merge_quiet(s1.doc, cur, ov);
                assert(self@ =~~= s0.with_overlay(None));
            }
        }
        Ok(())
    }
}

/// Merging an overlay that is transparent throughout changes nothing.
proof fn lemma_merge_quiet(d: DocView, cur: usize, over: LayerView)
    requires
        cur < d.canvas.layers.len(),
        d.canvas.layers[cur as int].wf(),
        !stamps_any(d.canvas.layers[cur as int], over),
    ensures
        with_layer(d, cur, merged(d.canvas.layers[cur as int], over)) == d,
{
    let base = d.canvas.layers[cur as int];
    let z = with_layer(d, cur, merged(base, over));
    assert forall|p: (int, int)| !stamp_set(base, over, 0, base.height).contains(p) by {}
    assert(z.canvas.layers[cur as int].cells =~= base.cells);
    assert(z.canvas.layers =~= d.canvas.layers);
    assert(z =~~= d);
}

} // verus!
