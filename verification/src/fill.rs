//! The fill engine: a four-connected flood fill of the current layer that
//! matches and replaces by channel.

use crate::cell::{Cell, ChannelMask};
use crate::edit_state::{lemma_set_char_exact, EditState, EditStateView};
use crate::error::EditError;
use crate::geometry::Position;
use crate::journal::{apply_op, lemma_revert_push, revert_ops, with_layers, DocView, OpView};
use crate::layer::{cell_index, lemma_index_in_range, lemma_index_injective, LayerView, MAX_DIM};
use vstd::prelude::*;

verus! {

/// Whether a fill seeded on `seed_cell` takes `cell`: the cell agrees with
/// the seed on every matched channel, and replacing would change it.
pub open spec fn fill_matches(cell: Cell, seed_cell: Cell, target: Cell, mask: ChannelMask) -> bool {
    cell.spec_agrees(seed_cell, mask) && !cell.spec_agrees(target, mask)
}

/// Whether two positions share an edge.
pub open spec fn adjacent(a: (int, int), b: (int, int)) -> bool {
    ||| a.0 == b.0 && (a.1 == b.1 + 1 || a.1 + 1 == b.1)
    ||| a.1 == b.1 && (a.0 == b.0 + 1 || a.0 + 1 == b.0)
}

/// Whether `p` lies inside the layer and a fill seeded at `seed` takes the
/// cell there.
pub open spec fn cell_fillable(
    l: LayerView,
    seed: (int, int),
    target: Cell,
    mask: ChannelMask,
    p: (int, int),
) -> bool {
    l.in_bounds(p.0, p.1) && fill_matches(l.cells[p], l.cell_at(seed.0, seed.1), target, mask)
}

/// Whether `path` starts at `seed`, steps from each position to one that
/// shares an edge with it, and holds only positions that the fill takes.
pub open spec fn is_fill_path(
    l: LayerView,
    seed: (int, int),
    target: Cell,
    mask: ChannelMask,
    path: Seq<(int, int)>,
) -> bool {
    &&& path.len() > 0
    &&& path[0] == seed
    &&& forall|i: int| 0 <= i < path.len() ==> cell_fillable(l, seed, target, mask, #[trigger] path[i])
    &&& forall|i: int| 0 <= i < path.len() - 1 ==> adjacent(#[trigger] path[i], path[i + 1])
}

/// Whether the fill reaches `p`: some path of taken positions leads from the
/// seed to `p`.
pub open spec fn in_fill_region(
    l: LayerView,
    seed: (int, int),
    target: Cell,
    mask: ChannelMask,
    p: (int, int),
) -> bool {
    exists|path: Seq<(int, int)>| #[trigger] is_fill_path(l, seed, target, mask, path) && path.last() == p
}

/// The layer with the masked channels of `target` written into every cell of
/// `region`.
pub open spec fn paint(l: LayerView, target: Cell, mask: ChannelMask, region: Set<(int, int)>) -> LayerView {
    LayerView {
        cells: Map::new(
            |p: (int, int)| l.in_bounds(p.0, p.1),
            |p: (int, int)|
                if region.contains(p) {
                    Cell::spec_replace(l.cells[p], target, mask)
                } else {
                    l.cells[p]
                },
        ),
        ..l
    }
}

/// The positions that a fill seeded at `seed` reaches.
pub open spec fn fill_region(l: LayerView, seed: (int, int), target: Cell, mask: ChannelMask) -> Set<(int, int)> {
    Set::new(|p: (int, int)| in_fill_region(l, seed, target, mask, p))
}

/// The layer after a fill seeded at `seed`.
pub open spec fn filled_layer(l: LayerView, seed: (int, int), target: Cell, mask: ChannelMask) -> LayerView {
    paint(l, target, mask, fill_region(l, seed, target, mask))
}

/// The seed, where the fill takes it, is reached.
pub proof fn lemma_region_seed(l: LayerView, seed: (int, int), target: Cell, mask: ChannelMask)
    requires
        cell_fillable(l, seed, target, mask, seed),
    ensures
        in_fill_region(l, seed, target, mask, seed),
{
    let path = seq![seed];
    assert(is_fill_path(l, seed, target, mask, path));
    assert(path.last() == seed);
}

/// A taken position next to a reached one is reached.
pub proof fn lemma_region_step(
    l: LayerView,
    seed: (int, int),
    target: Cell,
    mask: ChannelMask,
    p: (int, int),
    q: (int, int),
)
    requires
        in_fill_region(l, seed, target, mask, p),
        adjacent(p, q),
        cell_fillable(l, seed, target, mask, q),
    ensures
        in_fill_region(l, seed, target, mask, q),
{
    let path = choose|path: Seq<(int, int)>| #[trigger]
        is_fill_path(l, seed, target, mask, path) && path.last() == p;
    let longer = path.push(q);
    assert forall|i: int| 0 <= i < longer.len() implies cell_fillable(
        l,
        seed,
        target,
        mask,
        #[trigger] longer[i],
    ) by {
        if i < path.len() {
            assert(longer[i] == path[i]);
        }
    }
    assert forall|i: int| 0 <= i < longer.len() - 1 implies adjacent(
        #[trigger] longer[i],
        longer[i + 1],
    ) by {
        if i < path.len() - 1 {
            assert(longer[i] == path[i]);
            assert(longer[i + 1] == path[i + 1]);
        }
    }
    assert(is_fill_path(l, seed, target, mask, longer));
    assert(longer.last() == q);
}

/// Every reached position is one that the fill takes.
pub proof fn lemma_region_fillable(
    l: LayerView,
    seed: (int, int),
    target: Cell,
    mask: ChannelMask,
    p: (int, int),
)
    requires
        in_fill_region(l, seed, target, mask, p),
    ensures
        cell_fillable(l, seed, target, mask, p),
        cell_fillable(l, seed, target, mask, seed),
{
    let path = choose|path: Seq<(int, int)>| #[trigger]
        is_fill_path(l, seed, target, mask, path) && path.last() == p;
    assert(cell_fillable(l, seed, target, mask, path[path.len() - 1]));
    assert(cell_fillable(l, seed, target, mask, path[0]));
}

/// A set that holds the seed where the fill takes it, and with each of its
/// positions the taken ones next to it, holds every position along a path.
proof fn lemma_path_inside(
    l: LayerView,
    seed: (int, int),
    target: Cell,
    mask: ChannelMask,
    f: Set<(int, int)>,
    path: Seq<(int, int)>,
    i: int,
)
    requires
        is_fill_path(l, seed, target, mask, path),
        0 <= i < path.len(),
        cell_fillable(l, seed, target, mask, seed) ==> f.contains(seed),
        forall|p: (int, int), q: (int, int)|
            f.contains(p) && #[trigger] adjacent(p, q) && cell_fillable(l, seed, target, mask, q)
                ==> f.contains(q),
    ensures
        f.contains(path[i]),
    decreases i,
{
    if i == 0 {
        assert(cell_fillable(l, seed, target, mask, path[0]));
    } else {
        lemma_path_inside(l, seed, target, mask, f, path, i - 1);
        assert(adjacent(path[i - 1], path[i]));
        assert(cell_fillable(l, seed, target, mask, path[i]));
    }
}

/// A set closed as in `lemma_path_inside` holds every reached position.
pub proof fn lemma_region_closed(
    l: LayerView,
    seed: (int, int),
    target: Cell,
    mask: ChannelMask,
    f: Set<(int, int)>,
    p: (int, int),
)
    requires
        in_fill_region(l, seed, target, mask, p),
        cell_fillable(l, seed, target, mask, seed) ==> f.contains(seed),
        forall|p: (int, int), q: (int, int)|
            f.contains(p) && #[trigger] adjacent(p, q) && cell_fillable(l, seed, target, mask, q)
                ==> f.contains(q),
    ensures
        f.contains(p),
{
    let path = choose|path: Seq<(int, int)>| #[trigger]
        is_fill_path(l, seed, target, mask, path) && path.last() == p;
    lemma_path_inside(l, seed, target, mask, f, path, path.len() - 1);
}

/// A fill that does not take the seed reaches nothing.
pub proof fn lemma_region_empty(l: LayerView, seed: (int, int), target: Cell, mask: ChannelMask)
    requires
        !cell_fillable(l, seed, target, mask, seed),
    ensures
        forall|p: (int, int)| !in_fill_region(l, seed, target, mask, p),
        l.wf() ==> filled_layer(l, seed, target, mask) == l,
{
    assert forall|p: (int, int)| !in_fill_region(l, seed, target, mask, p) by {
        if in_fill_region(l, seed, target, mask, p) {
            lemma_region_fillable(l, seed, target, mask, p);
        }
    }
    if l.wf() {
        assert(filled_layer(l, seed, target, mask).cells =~= l.cells);
    }
}

/// A fill changes no cell that no path of edge-sharing matching cells
/// connects to the seed, and every cell that it changes matched.
pub proof fn lemma_fill_confined(
    l: LayerView,
    seed: (int, int),
    target: Cell,
    mask: ChannelMask,
    p: (int, int),
)
    ensures
        !in_fill_region(l, seed, target, mask, p) ==> filled_layer(l, seed, target, mask).cell_at(
            p.0,
            p.1,
        ) == l.cell_at(p.0, p.1),
        filled_layer(l, seed, target, mask).cell_at(p.0, p.1) != l.cell_at(p.0, p.1)
            ==> cell_fillable(l, seed, target, mask, p),
{
    if in_fill_region(l, seed, target, mask, p) {
        lemma_region_fillable(l, seed, target, mask, p);
    }
}

/// Filling is idempotent: after a fill, the same fill takes no cell, the
/// seed included, and leaves the layer as it is.
pub proof fn lemma_fill_idempotent(l: LayerView, seed: (int, int), target: Cell, mask: ChannelMask)
    requires
        l.wf(),
    ensures
        !cell_fillable(
            filled_layer(l, seed, target, mask),
            seed,
            target,
            mask,
            seed,
        ),
        filled_layer(filled_layer(l, seed, target, mask), seed, target, mask) == filled_layer(
            l,
            seed,
            target,
            mask,
        ),
{
    let l2 = filled_layer(l, seed, target, mask);
    if cell_fillable(l, seed, target, mask, seed) {
        lemma_region_seed(l, seed, target, mask);
        assert(fill_region(l, seed, target, mask).contains(seed));
        assert(l2.cells[seed] == Cell::spec_replace(l.cells[seed], target, mask));
    } else {
        lemma_region_empty(l, seed, target, mask);
    }
    assert(l2.wf());
    lemma_region_empty(l2, seed, target, mask);
}

/// How many flags of the sequence are not set.
pub open spec fn count_false(s: Seq<bool>) -> nat
    decreases s.len(),
{
    if s.len() == 0 {
        0
    } else {
        count_false(s.drop_last()) + if s.last() {
            0nat
        } else {
            1nat
        }
    }
}

/// Setting a flag that was not set leaves one unset flag less.
pub proof fn lemma_count_after_set(s: Seq<bool>, i: int)
    requires
        0 <= i < s.len(),
        !s[i],
    ensures
        count_false(s.update(i, true)) + 1 == count_false(s),
    decreases s.len(),
{
    let t = s.update(i, true);
    if i == s.len() - 1 {
        assert(t.drop_last() =~= s.drop_last());
    } else {
        lemma_count_after_set(s.drop_last(), i);
        assert(t.drop_last() =~= s.drop_last().update(i, true));
    }
}

/// The position as a pair of integers.
pub open spec fn pt(p: Position) -> (int, int) {
    (p.x as int, p.y as int)
}

/// Whether the work list holds `q`.
pub open spec fn in_work(work: Seq<Position>, q: (int, int)) -> bool {
    exists|i: int| 0 <= i < work.len() && pt(#[trigger] work[i]) == q
}

/// What holds of an entry of the work list: it lies inside the layer, is
/// marked, is not filled, and is reached if the fill takes it.
pub open spec fn work_entry_ok(
    l: LayerView,
    seed: (int, int),
    target: Cell,
    mask: ChannelMask,
    filled: Set<(int, int)>,
    seen: Set<(int, int)>,
    e: Position,
) -> bool {
    &&& l.in_bounds(e.x as int, e.y as int)
    &&& seen.contains(pt(e))
    &&& !filled.contains(pt(e))
    &&& cell_fillable(l, seed, target, mask, pt(e)) ==> in_fill_region(l, seed, target, mask, pt(e))
}

/// The state of the search. `hole` is a filled position whose neighbours
/// are not all marked yet.
pub open spec fn search_ok(
    l: LayerView,
    seed: (int, int),
    target: Cell,
    mask: ChannelMask,
    filled: Set<(int, int)>,
    seen: Set<(int, int)>,
    work: Seq<Position>,
    hole: Option<(int, int)>,
) -> bool {
    &&& l.in_bounds(seed.0, seed.1) ==> seen.contains(seed)
    &&& forall|p: (int, int)| #[trigger]
        filled.contains(p) ==> in_fill_region(l, seed, target, mask, p) && seen.contains(p)
    &&& forall|p: (int, int), q: (int, int)|
        filled.contains(p) && Some(p) != hole && #[trigger] adjacent(p, q) && l.in_bounds(q.0, q.1)
            ==> seen.contains(q)
    &&& forall|q: (int, int)| #[trigger]
        seen.contains(q) && cell_fillable(l, seed, target, mask, q) && !in_work(work, q)
            ==> filled.contains(q)
    &&& forall|i: int|
        0 <= i < work.len() ==> work_entry_ok(l, seed, target, mask, filled, seen, #[trigger] work[i])
    &&& forall|i: int, j: int| 0 <= i < j < work.len() ==> work[i] != work[j]
}

/// Taking the last entry off the work list, where the fill does not take
/// it.
proof fn lemma_pop_skip(
    l: LayerView,
    seed: (int, int),
    target: Cell,
    mask: ChannelMask,
    filled: Set<(int, int)>,
    seen: Set<(int, int)>,
    work: Seq<Position>,
)
    requires
        search_ok(l, seed, target, mask, filled, seen, work, None),
        work.len() > 0,
        !cell_fillable(l, seed, target, mask, pt(work.last())),
    ensures
        search_ok(l, seed, target, mask, filled, seen, work.drop_last(), None),
{
    let rest = work.drop_last();
    assert forall|q: (int, int)| #[trigger]
        seen.contains(q) && cell_fillable(l, seed, target, mask, q) && !in_work(rest, q) implies filled.contains(
        q,
    ) by {
        if in_work(work, q) {
            let i = choose|i: int| 0 <= i < work.len() && pt(#[trigger] work[i]) == q;
            if i < rest.len() {
                assert(pt(rest[i]) == q);
            }
        }
    }
    assert forall|i: int| 0 <= i < rest.len() implies work_entry_ok(
        l,
        seed,
        target,
        mask,
        filled,
        seen,
        #[trigger] rest[i],
    ) by {
        assert(rest[i] == work[i]);
    }
}

/// Taking the last entry off the work list and filling it.
proof fn lemma_pop_fill(
    l: LayerView,
    seed: (int, int),
    target: Cell,
    mask: ChannelMask,
    filled: Set<(int, int)>,
    seen: Set<(int, int)>,
    work: Seq<Position>,
)
    requires
        search_ok(l, seed, target, mask, filled, seen, work, None),
        work.len() > 0,
        cell_fillable(l, seed, target, mask, pt(work.last())),
        l.wf(),
    ensures
        search_ok(
            l,
            seed,
            target,
            mask,
            filled.insert(pt(work.last())),
            seen,
            work.drop_last(),
            Some(pt(work.last())),
        ),
        in_fill_region(l, seed, target, mask, pt(work.last())),
{
    let rest = work.drop_last();
    let p = pt(work.last());
    let filled2 = filled.insert(p);
    assert(work_entry_ok(l, seed, target, mask, filled, seen, work[work.len() - 1]));
    assert forall|q: (int, int)| #[trigger]
        seen.contains(q) && cell_fillable(l, seed, target, mask, q) && !in_work(rest, q) implies filled2.contains(
        q,
    ) by {
        if q != p && in_work(work, q) {
            let i = choose|i: int| 0 <= i < work.len() && pt(#[trigger] work[i]) == q;
            if i < rest.len() {
                assert(pt(rest[i]) == q);
            }
        }
    }
    assert forall|i: int| 0 <= i < rest.len() implies work_entry_ok(
        l,
        seed,
        target,
        mask,
        filled2,
        seen,
        #[trigger] rest[i],
    ) by {
        assert(rest[i] == work[i]);
        assert(work_entry_ok(l, seed, target, mask, filled, seen, work[i]));
        assert(work[i] != work[work.len() - 1]);
        assert(l.in_bounds(work[i].x as int, work[i].y as int));
    }
}

/// Marking a position next to the hole, and putting it on the work list
/// where it was not marked before.
proof fn lemma_visit(
    l: LayerView,
    seed: (int, int),
    target: Cell,
    mask: ChannelMask,
    filled: Set<(int, int)>,
    seen: Set<(int, int)>,
    work: Seq<Position>,
    hole: (int, int),
    e: Position,
)
    requires
        search_ok(l, seed, target, mask, filled, seen, work, Some(hole)),
        filled.contains(hole),
        adjacent(hole, pt(e)),
        l.in_bounds(e.x as int, e.y as int),
    ensures
        !seen.contains(pt(e)) ==> search_ok(
            l,
            seed,
            target,
            mask,
            filled,
            seen.insert(pt(e)),
            work.push(e),
            Some(hole),
        ),
{
    if !seen.contains(pt(e)) {
        let q0 = pt(e);
        let seen2 = seen.insert(q0);
        let work2 = work.push(e);
        if cell_fillable(l, seed, target, mask, q0) {
            lemma_region_step(l, seed, target, mask, hole, q0);
        }
        assert forall|q: (int, int)| #[trigger]
            seen2.contains(q) && cell_fillable(l, seed, target, mask, q) && !in_work(work2, q) implies filled.contains(
            q,
        ) by {
            if q == q0 {
                assert(pt(work2[work.len() as int]) == q0);
            } else {
                if in_work(work, q) {
                    let i = choose|i: int| 0 <= i < work.len() && pt(#[trigger] work[i]) == q;
                    assert(pt(work2[i]) == q);
                }
            }
        }
        assert forall|i: int| 0 <= i < work2.len() implies work_entry_ok(
            l,
            seed,
            target,
            mask,
            filled,
            seen2,
            #[trigger] work2[i],
        ) by {
            if i < work.len() {
                assert(work2[i] == work[i]);
                assert(work_entry_ok(l, seed, target, mask, filled, seen, work[i]));
            } else {
                assert(work2[i] == e);
            }
        }
        assert forall|i: int, j: int| 0 <= i < j < work2.len() implies work2[i] != work2[j] by {
            if j == work.len() {
                assert(work2[i] == work[i]);
                assert(work_entry_ok(l, seed, target, mask, filled, seen, work[i]));
            } else {
                assert(work2[i] == work[i]);
                assert(work2[j] == work[j]);
            }
        }
    }
}

/// Once every neighbour of the hole that lies inside the layer is marked,
/// the hole is closed.
proof fn lemma_close_hole(
    l: LayerView,
    seed: (int, int),
    target: Cell,
    mask: ChannelMask,
    filled: Set<(int, int)>,
    seen: Set<(int, int)>,
    work: Seq<Position>,
    hole: (int, int),
)
    requires
        search_ok(l, seed, target, mask, filled, seen, work, Some(hole)),
        l.in_bounds(hole.0 - 1, hole.1) ==> seen.contains((hole.0 - 1, hole.1)),
        l.in_bounds(hole.0 + 1, hole.1) ==> seen.contains((hole.0 + 1, hole.1)),
        l.in_bounds(hole.0, hole.1 - 1) ==> seen.contains((hole.0, hole.1 - 1)),
        l.in_bounds(hole.0, hole.1 + 1) ==> seen.contains((hole.0, hole.1 + 1)),
    ensures
        search_ok(l, seed, target, mask, filled, seen, work, None),
{
    assert forall|p: (int, int), q: (int, int)|
        filled.contains(p) && #[trigger] adjacent(p, q) && l.in_bounds(q.0, q.1) implies seen.contains(
        q,
    ) by {
        if p == hole {
            assert(q == (hole.0 - 1, hole.1) || q == (hole.0 + 1, hole.1) || q == (hole.0, hole.1 - 1)
                || q == (hole.0, hole.1 + 1));
        }
    }
}

/// When the work list is empty, the filled positions are the reached
/// ones.
proof fn lemma_search_done(
    l: LayerView,
    seed: (int, int),
    target: Cell,
    mask: ChannelMask,
    filled: Set<(int, int)>,
    seen: Set<(int, int)>,
)
    requires
        search_ok(l, seed, target, mask, filled, seen, Seq::empty(), None),
    ensures
        forall|p: (int, int)| filled.contains(p) <==> in_fill_region(l, seed, target, mask, p),
        paint(l, target, mask, filled) == filled_layer(l, seed, target, mask),
{
    let work = Seq::<Position>::empty();
    assert forall|p: (int, int), q: (int, int)|
        filled.contains(p) && #[trigger] adjacent(p, q) && cell_fillable(
            l,
            seed,
            target,
            mask,
            q,
        ) implies filled.contains(q) by {
        assert(seen.contains(q));
        assert(!in_work(work, q));
    }
    if cell_fillable(l, seed, target, mask, seed) {
        assert(seen.contains(seed));
        assert(!in_work(work, seed));
    }
    assert forall|p: (int, int)| in_fill_region(l, seed, target, mask, p) implies filled.contains(
        p,
    ) by {
        lemma_region_closed(l, seed, target, mask, filled, p);
    }
    assert(paint(l, target, mask, filled).cells =~= filled_layer(l, seed, target, mask).cells);
}

/// Whether the flags mirror the set of marked positions.
pub open spec fn marks_ok(visited: Seq<bool>, seen: Set<(int, int)>, w: int, h: int) -> bool {
    &&& visited.len() == w * h
    &&& forall|x: int, y: int|
        0 <= x < w && 0 <= y < h ==> visited[#[trigger] cell_index(x, y, w)] == seen.contains((x, y))
}

proof fn lemma_mark(visited: Seq<bool>, seen: Set<(int, int)>, w: int, h: int, x: int, y: int)
    requires
        marks_ok(visited, seen, w, h),
        0 <= x < w,
        0 <= y < h,
    ensures
        0 <= cell_index(x, y, w) < visited.len(),
        marks_ok(visited.update(cell_index(x, y, w), true), seen.insert((x, y)), w, h),
{
    lemma_index_in_range(x, y, w, h);
    let v2 = visited.update(cell_index(x, y, w), true);
    assert forall|a: int, b: int| 0 <= a < w && 0 <= b < h implies v2[#[trigger] cell_index(a, b, w)]
        == seen.insert((x, y)).contains((a, b)) by {
        lemma_index_in_range(a, b, w, h);
        if cell_index(a, b, w) == cell_index(x, y, w) {
            lemma_index_injective(a, b, x, y, w);
        }
    }
}

/// The document with the cells of `region` painted in the layer at `cur`.
pub open spec fn painted_doc(
    d: DocView,
    cur: usize,
    target: Cell,
    mask: ChannelMask,
    region: Set<(int, int)>,
) -> DocView {
    with_layers(
        d,
        d.canvas.layers.update(cur as int, paint(d.canvas.layers[cur as int], target, mask, region)),
    )
}

proof fn lemma_paint_step(
    d: DocView,
    cur: usize,
    target: Cell,
    mask: ChannelMask,
    region: Set<(int, int)>,
    p: Position,
)
    requires
        cur < d.canvas.layers.len(),
        d.canvas.layers[cur as int].wf(),
        d.canvas.layers[cur as int].in_bounds(p.x as int, p.y as int),
        !region.contains(pt(p)),
    ensures
        apply_op(
            OpView::SetCell {
                layer: cur,
                pos: p,
                old: d.canvas.layers[cur as int].cells[pt(p)],
                new: Cell::spec_replace(d.canvas.layers[cur as int].cells[pt(p)], target, mask),
            },
            painted_doc(d, cur, target, mask, region),
        ) == painted_doc(d, cur, target, mask, region.insert(pt(p))),
{
    let l0 = d.canvas.layers[cur as int];
    let op = OpView::SetCell {
        layer: cur,
        pos: p,
        old: l0.cells[pt(p)],
        new: Cell::spec_replace(l0.cells[pt(p)], target, mask),
    };
    let a = apply_op(op, painted_doc(d, cur, target, mask, region));
    let b = painted_doc(d, cur, target, mask, region.insert(pt(p)));
    assert(a.canvas.layers[cur as int].cells =~= b.canvas.layers[cur as int].cells);
    assert(a.canvas.layers =~= b.canvas.layers);
    assert(a =~~= b);
}

/// Marks `(x, y)`, a neighbour of the hole, and puts it on the work list
/// where it lies inside the layer and was not marked.
fn visit(
    visited: &mut Vec<bool>,
    work: &mut Vec<Position>,
    x: i32,
    y: i32,
    w: i32,
    h: i32,
    Ghost(l): Ghost<LayerView>,
    Ghost(seed): Ghost<(int, int)>,
    Ghost(target): Ghost<Cell>,
    Ghost(mask): Ghost<ChannelMask>,
    Ghost(filled): Ghost<Set<(int, int)>>,
    Ghost(seen): Ghost<Set<(int, int)>>,
    Ghost(hole): Ghost<(int, int)>,
) -> (seen2: Ghost<Set<(int, int)>>)
    requires
        l.wf(),
        l.width == w,
        l.height == h,
        marks_ok(old(visited)@, seen, w as int, h as int),
        search_ok(l, seed, target, mask, filled, seen, old(work)@, Some(hole)),
        filled.contains(hole),
        adjacent(hole, (x as int, y as int)),
    ensures
        marks_ok(final(visited)@, seen2@, w as int, h as int),
        search_ok(l, seed, target, mask, filled, seen2@, final(work)@, Some(hole)),
        forall|p: (int, int)| seen.contains(p) ==> seen2@.contains(p),
        l.in_bounds(x as int, y as int) ==> seen2@.contains((x as int, y as int)),
        4 * count_false(final(visited)@) + final(work)@.len() <= 4 * count_false(old(visited)@)
            + old(work)@.len(),
{
    if x < 0 || y < 0 || x >= w || y >= h {
        return Ghost(seen);
    }
    proof {
        lemma_index_in_range(x as int, y as int, w as int, h as int);
        assert(w * h <= MAX_DIM * MAX_DIM) by (nonlinear_arith)
            requires
                0 <= w <= MAX_DIM,
                0 <= h <= MAX_DIM,
        ;
        assert(0 <= y * w) by (nonlinear_arith)
            requires
                0 <= y,
                0 <= w,
        ;
        assert(cell_index(x as int, y as int, w as int) == y * w + x);
    }
    let idx: usize = y as usize * w as usize + x as usize;
    if visited[idx] {
        return Ghost(seen);
    }
    let e = Position { x, y };
    proof {
        lemma_count_after_set(visited@, idx as int);
        lemma_mark(visited@, seen, w as int, h as int, x as int, y as int);
        lemma_visit(l, seed, target, mask, filled, seen, work@, hole, e);
    }
    visited.set(idx, true);
    work.push(e);
    Ghost(seen.insert((x as int, y as int)))
}

/// What `fill` answers.
pub open spec fn fill_result(s: EditStateView, matcher: ChannelMask) -> Result<(), EditError> {
    if matcher.is_empty() {
        Err(EditError::EmptyMatcher)
    } else {
        match s.current() {
            None => Err(EditError::LayerOutOfRange),
            Some(l) => if l.locked {
                Err(EditError::LayerLocked)
            } else {
                Ok(())
            },
        }
    }
}

/// The canvas position `seed` in the coordinates of the layer.
pub open spec fn local_seed(l: LayerView, seed: Position) -> (int, int) {
    (seed.x - l.offset.x, seed.y - l.offset.y)
}

/// What a successful fill leaves: where it takes the seed, the current
/// layer is the filled layer and the journal has one atomic group more;
/// where not, nothing has changed.
pub open spec fn fill_effect(
    before: EditStateView,
    after: EditStateView,
    seed: Position,
    matcher: ChannelMask,
    target: Cell,
) -> bool {
    let l = before.current().unwrap();
    let s = local_seed(l, seed);
    if cell_fillable(l, s, target, matcher, s) {
        &&& after.doc == with_layers(
            before.doc,
            before.doc.canvas.layers.update(
                before.doc.current_layer as int,
                filled_layer(l, s, target, matcher),
            ),
        )
        &&& before.grouped_into(after, "fill"@)
    } else {
        after == before
    }
}

impl EditState {
    /// Flood fill of the current layer. The seed is given in canvas
    /// coordinates and read from the current layer itself, not from the
    /// composite of the layers. Every cell that a path of edge-sharing
    /// matching cells connects to the seed gets the channels of `target`
    /// that `matcher` selects; a cell matches where it agrees with the seed
    /// cell on those channels and the replacement would change it. All of
    /// it is one atomic group in the journal.
    ///
    /// Fails with `EmptyMatcher` where `matcher` selects no channel, with
    /// `LayerOutOfRange` where the current-layer pointer names no layer, and
    /// with `LayerLocked` where the layer is locked.
    pub fn fill(&mut self, seed: Position, matcher: ChannelMask, target: Cell) -> (r: Result<
        (),
        EditError,
    >)
        requires
            old(self).wf(),
        ensures
            final(self).wf(),
            r == fill_result(old(self)@, matcher),
            r is Err ==> final(self)@ == old(self)@,
            r is Ok ==> fill_effect(old(self)@, final(self)@, seed, matcher, target),
    {
        if matcher.none_selected() {
            return Err(EditError::EmptyMatcher);
        }
        let ghost s0 = self@;
        proof {
            self.lemma_wf_view();
        }
        let (w, h, offset, locked): (i32, i32, Position, bool) = match self.get_cur_layer() {
            None => {
                return Err(EditError::LayerOutOfRange);
            },
            Some(layer) => (
                layer.get_width(),
                layer.get_height(),
                layer.get_offset(),
                layer.is_locked(),
            ),
        };
        if locked {
            return Err(EditError::LayerLocked);
        }
        let ghost l0 = s0.current().unwrap();
        let ghost cur = s0.doc.current_layer;
        let ghost gseed = local_seed(l0, seed);
        let sx: i64 = seed.x as i64 - offset.x as i64;
        let sy: i64 = seed.y as i64 - offset.y as i64;
        if sx < 0 || sy < 0 || sx >= w as i64 || sy >= h as i64 {
            return Ok(());
        }
        let seed_pos = Position { x: sx as i32, y: sy as i32 };
        let seed_cell: Cell = self.get_char(seed_pos);
        if !(seed_cell.agrees(seed_cell, matcher) && !seed_cell.agrees(target, matcher)) {
            return Ok(());
        }
        let nested: bool = self.in_transaction();
        if !nested {
            self.begin_atomic_undo("fill");
        }
        let ghost s1 = self@;
        proof {
            assert(w * h <= MAX_DIM * MAX_DIM) by (nonlinear_arith)
                requires
                    0 <= w <= MAX_DIM,
                    0 <= h <= MAX_DIM,
            ;
            assert(0 <= w * h) by (nonlinear_arith)
                requires
                    0 <= w,
                    0 <= h,
            ;
        }
        let n: usize = w as usize * h as usize;
        let mut visited: Vec<bool> = Vec::new();
        let mut k: usize = 0;
        while k < n
            invariant
                k <= n,
                visited@.len() == k,
                forall|i: int| 0 <= i < k ==> !visited@[i],
            decreases n - k,
        {
            visited.push(false);
            k += 1;
        }
        let mut work: Vec<Position> = Vec::new();
        let ghost mut filled: Set<(int, int)> = Set::empty();
        let ghost mut seen: Set<(int, int)> = Set::empty();
        proof {
            assert(marks_ok(visited@, seen, w as int, h as int)) by {
                assert forall|x: int, y: int| 0 <= x < w && 0 <= y < h implies visited@[#[trigger] cell_index(
                    x,
                    y,
                    w as int,
                )] == seen.contains((x, y)) by {
                    lemma_index_in_range(x, y, w as int, h as int);
                }
            }
            lemma_mark(visited@, seen, w as int, h as int, sx as int, sy as int);
            lemma_index_in_range(sx as int, sy as int, w as int, h as int);
            assert(0 <= sy * w) by (nonlinear_arith)
                requires
                    0 <= sy,
                    0 <= w,
            ;
            assert(cell_index(sx as int, sy as int, w as int) == sy * w + sx);
            seen = seen.insert(gseed);
            lemma_region_seed(l0, gseed, target, matcher);
        }
        let seed_idx: usize = sy as usize * w as usize + sx as usize;
        visited.set(seed_idx, true);
        work.push(seed_pos);
        proof {
            assert(work@[0] == seed_pos);
            assert(pt(work@[0]) == gseed);
            assert(search_ok(l0, gseed, target, matcher, filled, seen, work@, None)) by {
                assert forall|q: (int, int)| #[trigger]
                    seen.contains(q) && cell_fillable(l0, gseed, target, matcher, q) && !in_work(
                        work@,
                        q,
                    ) implies filled.contains(q) by {
                    assert(q == gseed);
                    assert(pt(work@[0]) == q);
                }
            }
            assert(painted_doc(s1.doc, cur, target, matcher, filled).canvas.layers[cur as int].cells
                =~= l0.cells);
            assert(painted_doc(s1.doc, cur, target, matcher, filled).canvas.layers
                =~= s1.doc.canvas.layers);
            assert(painted_doc(s1.doc, cur, target, matcher, filled) =~~= s1.doc);
        }
        let ghost mut fresh: Seq<OpView> = Seq::empty();
        proof {
            assert(self@.open_ops =~= s1.open_ops + fresh);
        }
        while work.len() > 0
            invariant
                self.wf(),
                0 <= w <= MAX_DIM,
                0 <= h <= MAX_DIM,
                l0.wf(),
                l0.width == w,
                l0.height == h,
                !l0.locked,
                s1.doc.current_layer == cur,
                cur < s1.doc.canvas.layers.len(),
                s1.doc.canvas.layers[cur as int] == l0,
                seed_cell == l0.cell_at(gseed.0, gseed.1),
                s1.depth > 0,
                self@.caret == s1.caret,
                self@.overlay == s1.overlay,
                self@.drag == s1.drag,
                self@.done == s1.done,
                self@.undone == s1.undone,
                self@.depth == s1.depth,
                self@.open_description == s1.open_description,
                self@.open_ops == s1.open_ops + fresh,
                revert_ops(fresh, self@.doc) == s1.doc,
                filled.contains(gseed) ==> fresh.len() > 0,
                self@.doc == painted_doc(s1.doc, cur, target, matcher, filled),
                marks_ok(visited@, seen, w as int, h as int),
                search_ok(l0, gseed, target, matcher, filled, seen, work@, None),
            decreases 4 * count_false(visited@) + work@.len(),
        {
            let ghost work_before = work@;
            let p: Position = work.pop().unwrap();
            assert(p == work_before.last());
            assert(work@ =~= work_before.drop_last());
            assert(work_entry_ok(
                l0,
                gseed,
                target,
                matcher,
                filled,
                seen,
                work_before[work_before.len() - 1],
            ));
            let ghost mid = self@;
            assert(mid.current() == Some(paint(l0, target, matcher, filled)));
            let c: Cell = self.get_char(p);
            assert(c == l0.cells[pt(p)]);
            if c.agrees(seed_cell, matcher) && !c.agrees(target, matcher) {
                let nc: Cell = Cell::replace(c, target, matcher);
                proof {
                    lemma_pop_fill(l0, gseed, target, matcher, filled, seen, work_before);
                    lemma_paint_step(s1.doc, cur, target, matcher, filled, p);
                }
                let res = self.set_char(p, nc);
                assert(res is Ok);
                proof {
                    let op = mid.set_char_op(p, nc);
                    assert(op == (OpView::SetCell {
                        layer: cur,
                        pos: p,
                        old: l0.cells[pt(p)],
                        new: Cell::spec_replace(l0.cells[pt(p)], target, matcher),
                    }));
                    lemma_set_char_exact(mid, p, nc);
                    lemma_revert_push(fresh, op, mid.doc);
                    assert(self@.open_ops =~= s1.open_ops + fresh.push(op));
                    filled = filled.insert(pt(p));
                    fresh = fresh.push(op);
                }
                let ghost hole = pt(p);
                let Ghost(seen_a) = visit(
                    &mut visited,
                    &mut work,
                    p.x - 1,
                    p.y,
                    w,
                    h,
                    Ghost(l0),
                    Ghost(gseed),
                    Ghost(target),
                    Ghost(matcher),
                    Ghost(filled),
                    Ghost(seen),
                    Ghost(hole),
                );
                let Ghost(seen_b) = visit(
                    &mut visited,
                    &mut work,
                    p.x + 1,
                    p.y,
                    w,
                    h,
                    Ghost(l0),
                    Ghost(gseed),
                    Ghost(target),
                    Ghost(matcher),
                    Ghost(filled),
                    Ghost(seen_a),
                    Ghost(hole),
                );
                let Ghost(seen_c) = visit(
                    &mut visited,
                    &mut work,
                    p.x,
                    p.y - 1,
                    w,
                    h,
                    Ghost(l0),
                    Ghost(gseed),
                    Ghost(target),
                    Ghost(matcher),
                    Ghost(filled),
                    Ghost(seen_b),
                    Ghost(hole),
                );
                let Ghost(seen_d) = visit(
                    &mut visited,
                    &mut work,
                    p.x,
                    p.y + 1,
                    w,
                    h,
                    Ghost(l0),
                    Ghost(gseed),
                    Ghost(target),
                    Ghost(matcher),
                    Ghost(filled),
                    Ghost(seen_c),
                    Ghost(hole),
                );
                proof {
                    seen = seen_d;
                    lemma_close_hole(l0, gseed, target, matcher, filled, seen, work@, hole);
                }
            } else {
                proof {
                    lemma_pop_skip(l0, gseed, target, matcher, filled, seen, work_before);
                }
            }
        }
        proof {
            assert(work@ =~= Seq::empty());
            lemma_search_done(l0, gseed, target, matcher, filled, seen);
            assert(filled.contains(gseed));
        }
        if !nested {
            self.end_atomic_undo();
            proof {
                assert(s1.open_ops =~= Seq::empty());
                assert(s1.open_ops + fresh =~= fresh);
                assert(self@.done.drop_last() =~= s0.done);
                assert(self@.open_description =~= s0.open_description);
            }
        } else {
            proof {
                assert(self@.open_ops.take(s0.open_ops.len() as int) =~= s0.open_ops);
                assert(self@.open_ops.skip(s0.open_ops.len() as int) =~= fresh);
            }
        }
        Ok(())
    }
}

} // verus!
