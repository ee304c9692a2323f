//! What the buttons of the layer panel do.

use crate::edit_state::{lemma_group_of_two, EditState, EditStateView};
use crate::journal::OpView;
use crate::layer::{spec_clamp_dim, Layer, LayerView};
use vstd::prelude::*;

verus! {

/// The operations of `move_layer_up`: the current layer changes places
/// with the one before it and stays current. None where there is no layer
/// before it.
pub open spec fn move_up_ops(s: EditStateView) -> Seq<OpView> {
    let cur = s.doc.current_layer;
    if 0 < cur < s.doc.canvas.layers.len() {
        seq![
            OpView::SwapLayers { i: cur, j: (cur - 1) as usize },
            OpView::SetCurrentLayer { from: cur, to: (cur - 1) as usize },
        ]
    } else {
        Seq::empty()
    }
}

/// The operations of `move_layer_down`: the current layer changes places
/// with the one after it and stays current. None where there is no layer
/// after it.
pub open spec fn move_down_ops(s: EditStateView) -> Seq<OpView> {
    let cur = s.doc.current_layer;
    if cur + 1 < s.doc.canvas.layers.len() {
        seq![
            OpView::SwapLayers { i: cur, j: (cur + 1) as usize },
            OpView::SetCurrentLayer { from: cur, to: (cur + 1) as usize },
        ]
    } else {
        Seq::empty()
    }
}

/// The operations of `delete_layer`: the current layer is removed, and
/// where it was the last of several the one before it becomes current.
/// None where the current-layer pointer names no layer.
pub open spec fn delete_ops(s: EditStateView) -> Seq<OpView> {
    let cur = s.doc.current_layer;
    let n = s.doc.canvas.layers.len();
    if cur < n {
        let remove = OpView::RemoveLayer { index: cur, layer: s.doc.canvas.layers[cur as int] };
        if cur + 1 == n && cur > 0 {
            seq![remove, OpView::SetCurrentLayer { from: cur, to: (cur - 1) as usize }]
        } else {
            seq![remove]
        }
    } else {
        Seq::empty()
    }
}

/// Adds a transparent layer of the canvas's size, called "New Layer", at
/// the bottom of the stack.
pub fn add_layer(state: &mut EditState)
    requires
        old(state).wf(),
    ensures
        final(state).wf(),
        final(state)@ == old(state)@.recorded(
            OpView::InsertLayer {
                index: 0,
                layer: LayerView::fresh(
                    "New Layer"@,
                    spec_clamp_dim(old(state)@.doc.canvas.size.width as int),
                    spec_clamp_dim(old(state)@.doc.canvas.size.height as int),
                ),
            },
            "add layer"@,
        ),
{
    let size = state.get_buffer().size;
    let layer = Layer::new("New Layer", size);
    let res = state.insert_layer(0, layer);
    assert(res is Ok);
}

/// Exchanges the current layer with the one before it, as one atomic
/// group; the layer stays current. Nothing happens where there is no layer
/// before it.
pub fn move_layer_up(state: &mut EditState)
    requires
        old(state).wf(),
    ensures
        final(state).wf(),
        final(state)@ == old(state)@.atomically("move layer up"@, move_up_ops(old(state)@)),
{
    let cur: usize = state.get_current_layer();
    let n: usize = state.get_buffer().layer_count();
    if cur == 0 || cur >= n {
        return ;
    }
    proof {
        state.lemma_wf_view();
        lemma_group_of_two(
            state@,
            "move layer up"@,
            OpView::SwapLayers { i: cur, j: (cur - 1) as usize },
            "swap layers"@,
            OpView::SetCurrentLayer { from: cur, to: (cur - 1) as usize },
            "select layer"@,
        );
    }
    let nested: bool = state.in_transaction();
    if !nested {
        state.begin_atomic_undo("move layer up");
    }
    let _ = state.swap_layers(cur, cur - 1);
    let _ = state.set_current_layer(cur - 1);
    if !nested {
        state.end_atomic_undo();
    }
}

/// Exchanges the current layer with the one after it, as one atomic
/// group; the layer stays current. Nothing happens where there is no layer
/// after it.
pub fn move_layer_down(state: &mut EditState)
    requires
        old(state).wf(),
    ensures
        final(state).wf(),
        final(state)@ == old(state)@.atomically("move layer down"@, move_down_ops(old(state)@)),
{
    let cur: usize = state.get_current_layer();
    let n: usize = state.get_buffer().layer_count();
    if cur >= n || cur + 1 >= n {
        return ;
    }
    proof {
        state.lemma_wf_view();
        lemma_group_of_two(
            state@,
            "move layer down"@,
            OpView::SwapLayers { i: cur, j: (cur + 1) as usize },
            "swap layers"@,
            OpView::SetCurrentLayer { from: cur, to: (cur + 1) as usize },
            "select layer"@,
        );
    }
    let nested: bool = state.in_transaction();
    if !nested {
        state.begin_atomic_undo("move layer down");
    }
    let _ = state.swap_layers(cur, cur + 1);
    let _ = state.set_current_layer(cur + 1);
    if !nested {
        state.end_atomic_undo();
    }
}

/// Removes the current layer, as one atomic group. Where it was the last
/// of several, the layer before it becomes current, so that the pointer
/// names a layer as long as there is one. Nothing happens where the
/// pointer names no layer.
pub fn delete_layer(state: &mut EditState)
    requires
        old(state).wf(),
    ensures
        final(state).wf(),
        final(state)@ == old(state)@.atomically("delete layer"@, delete_ops(old(state)@)),
{
    let cur: usize = state.get_current_layer();
    let n: usize = state.get_buffer().layer_count();
    if cur >= n {
        return ;
    }
    proof {
        state.lemma_wf_view();
        lemma_group_of_two(
            state@,
            "delete layer"@,
            OpView::RemoveLayer { index: cur, layer: state@.doc.canvas.layers[cur as int] },
            "remove layer"@,
            OpView::SetCurrentLayer { from: cur, to: (cur - 1) as usize },
            "select layer"@,
        );
    }
    let nested: bool = state.in_transaction();
    if !nested {
        state.begin_atomic_undo("delete layer");
    }
    let _ = state.remove_layer(cur);
    if cur + 1 == n && cur > 0 {
        let _ = state.set_current_layer(cur - 1);
    }
    if !nested {
        state.end_atomic_undo();
    }
}

/// Shows the layer at `index` where it is hidden and hides it where it
/// shows. Nothing happens where `index` names no layer.
pub fn toggle_visible(state: &mut EditState, index: usize)
    requires
        old(state).wf(),
    ensures
        final(state).wf(),
        final(state)@ == if index < old(state)@.doc.canvas.layers.len() {
            old(state)@.recorded(
                OpView::SetVisible {
                    layer: index,
                    from: old(state)@.doc.canvas.layers[index as int].visible,
                    to: !old(state)@.doc.canvas.layers[index as int].visible,
                },
                "layer visibility"@,
            )
        } else {
            old(state)@
        },
{
    let canvas = state.get_buffer();
    if index < canvas.layer_count() {
        let visible: bool = canvas.layers[index].is_visible();
        assert(canvas@.layers[index as int] == canvas.layers@[index as int]@);
        let _ = state.set_layer_visible(index, !visible);
    }
}

} // verus!
