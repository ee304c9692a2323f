//! The shape rasterizer: lines, rectangles and ellipses as horizontal
//! spans of cells.

use crate::error::EditError;
use crate::geometry::{spec_abs, spec_max, spec_min, Position};
use vstd::prelude::*;

verus! {

/// The cells `(x, y)` of one row with `x_start <= x <= x_end`.
#[derive(Clone, Copy, Debug, PartialEq, Eq, Structural, Hash)]
pub struct Span {
    pub y: i32,
    pub x_start: i32,
    pub x_end: i32,
}

/// The spans that the shapes of one gesture cover.
#[derive(Debug)]
pub struct ScanLines {
    pub spans: Vec<Span>,
}

pub open spec fn span_covers(s: Span, p: (int, int)) -> bool {
    s.y == p.1 && s.x_start <= p.0 <= s.x_end
}

/// Whether one of the spans covers `p`.
pub open spec fn covered(spans: Seq<Span>, p: (int, int)) -> bool {
    exists|i: int| 0 <= i < spans.len() && span_covers(#[trigger] spans[i], p)
}

/// The cells that the spans cover.
pub open spec fn span_cells(spans: Seq<Span>) -> Set<(int, int)> {
    Set::new(|p: (int, int)| covered(spans, p))
}

impl View for ScanLines {
    type V = Set<(int, int)>;

    open spec fn view(&self) -> Set<(int, int)> {
        span_cells(self.spans@)
    }
}

/// The spans of two sequences cover what either covers.
pub proof fn lemma_cells_concat(a: Seq<Span>, b: Seq<Span>)
    ensures
        span_cells(a + b) == span_cells(a).union(span_cells(b)),
{
    let c = a + b;
    assert forall|p: (int, int)| span_cells(c).contains(p) <==> span_cells(a).union(
        span_cells(b),
    ).contains(p) by {
        if covered(c, p) {
            let i = choose|i: int| 0 <= i < c.len() && span_covers(#[trigger] c[i], p);
            if i < a.len() {
                assert(span_covers(a[i], p));
            } else {
                assert(span_covers(b[i - a.len()], p));
            }
        }
        if covered(a, p) {
            let i = choose|i: int| 0 <= i < a.len() && span_covers(#[trigger] a[i], p);
            assert(span_covers(c[i], p));
        }
        if covered(b, p) {
            let i = choose|i: int| 0 <= i < b.len() && span_covers(#[trigger] b[i], p);
            assert(span_covers(c[i + a.len()], p));
        }
    }
    assert(span_cells(c) =~= span_cells(a).union(span_cells(b)));
}

/// Whether `a` comes before `b`, or is `b`, when positions are ordered by
/// column and then by row.
pub open spec fn comes_first(a: Position, b: Position) -> bool {
    a.x < b.x || (a.x == b.x && a.y <= b.y)
}

/// The endpoint of a line from which it is stepped.
pub open spec fn line_from(a: Position, b: Position) -> Position {
    if comes_first(a, b) {
        a
    } else {
        b
    }
}

/// The endpoint of a line towards which it is stepped.
pub open spec fn line_to(a: Position, b: Position) -> Position {
    if comes_first(a, b) {
        b
    } else {
        a
    }
}

/// How many steps lead from one end of the line to the other: the larger
/// of the two extents.
pub open spec fn line_steps(a: Position, b: Position) -> int {
    spec_max(spec_abs(a.x - b.x), spec_abs(a.y - b.y))
}

/// `num / den`, rounded to the nearest integer, halves upwards.
pub open spec fn div_round(num: int, den: int) -> int {
    (2 * num + den) / (2 * den)
}

/// The cell of the line after `i` steps. Along the longer extent every step
/// advances by one; along the shorter the advance is in proportion,
/// rounded to the nearest cell.
pub open spec fn line_point(a: Position, b: Position, i: int) -> (int, int) {
    let from = line_from(a, b);
    let to = line_to(a, b);
    let dx = to.x - from.x;
    let dy = to.y - from.y;
    let n = line_steps(a, b);
    if n == 0 {
        (from.x as int, from.y as int)
    } else if dx >= spec_abs(dy) {
        (
            from.x + i,
            if dy >= 0 {
                from.y + div_round(i * dy, n)
            } else {
                from.y - div_round(i * (-dy), n)
            },
        )
    } else {
        (
            from.x + div_round(i * dx, n),
            if dy >= 0 {
                from.y + i
            } else {
                from.y - i
            },
        )
    }
}

/// The cells of the line between `a` and `b`, both included.
pub open spec fn line_cells(a: Position, b: Position) -> Set<(int, int)> {
    Set::new(
        |p: (int, int)| exists|i: int| 0 <= i <= line_steps(a, b) && #[trigger] line_point(a, b, i) == p,
    )
}

/// A line is the same set of cells from whichever end it is given.
pub proof fn lemma_line_symmetric(a: Position, b: Position)
    ensures
        line_cells(a, b) == line_cells(b, a),
{
    assert(line_from(a, b) == line_from(b, a));
    assert(line_to(a, b) == line_to(b, a));
    assert(line_steps(a, b) == line_steps(b, a));
    assert forall|i: int| line_point(a, b, i) == line_point(b, a, i) by {}
    assert forall|p: (int, int)| line_cells(a, b).contains(p) <==> line_cells(b, a).contains(p) by {
        if line_cells(a, b).contains(p) {
            let i = choose|i: int| 0 <= i <= line_steps(a, b) && #[trigger] line_point(a, b, i) == p;
            assert(line_point(b, a, i) == p);
        }
        if line_cells(b, a).contains(p) {
            let i = choose|i: int| 0 <= i <= line_steps(b, a) && #[trigger] line_point(b, a, i) == p;
            assert(line_point(a, b, i) == p);
        }
    }
    assert(line_cells(a, b) =~= line_cells(b, a));
}

/// Both endpoints are cells of the line.
pub proof fn lemma_line_endpoints(a: Position, b: Position)
    ensures
        line_cells(a, b).contains((a.x as int, a.y as int)),
        line_cells(a, b).contains((b.x as int, b.y as int)),
{
    let from = line_from(a, b);
    let to = line_to(a, b);
    let n = line_steps(a, b);
    let dx = to.x - from.x;
    let dy = to.y - from.y;
    assert(line_point(a, b, 0) == (from.x as int, from.y as int)) by {
        if n > 0 {
            lemma_div_round_whole(0, n);
            assert(0 * n == 0) by (nonlinear_arith);
            assert(0 * dy == 0 && 0 * (-dy) == 0 && 0 * dx == 0) by (nonlinear_arith);
        }
    }
    assert(line_point(a, b, n) == (to.x as int, to.y as int)) by {
        if n > 0 {
            lemma_div_round_whole(dx, n);
            lemma_div_round_whole(dy, n);
            lemma_div_round_whole(-dy, n);
            assert(n * dx == dx * n && n * dy == dy * n && n * (-dy) == (-dy) * n)
                by (nonlinear_arith);
        }
    }
}

/// A whole multiple of the divisor divides without rounding.
pub proof fn lemma_div_round_whole(k: int, n: int)
    requires
        n > 0,
    ensures
        div_round(k * n, n) == k,
{
    assert(2 * (k * n) + n == k * (2 * n) + n) by (nonlinear_arith);
    vstd::arithmetic::div_mod::lemma_fundamental_div_mod_converse(k * (2 * n) + n, 2 * n, k, n);
}

/// Whether `p` lies in the smallest rectangle that holds both corners.
pub open spec fn in_box(a: Position, b: Position, p: (int, int)) -> bool {
    &&& spec_min(a.x as int, b.x as int) <= p.0 <= spec_max(a.x as int, b.x as int)
    &&& spec_min(a.y as int, b.y as int) <= p.1 <= spec_max(a.y as int, b.y as int)
}

/// Whether `p` lies on the first or last column or row of the rectangle.
pub open spec fn on_box_edge(a: Position, b: Position, p: (int, int)) -> bool {
    ||| p.0 == spec_min(a.x as int, b.x as int)
    ||| p.0 == spec_max(a.x as int, b.x as int)
    ||| p.1 == spec_min(a.y as int, b.y as int)
    ||| p.1 == spec_max(a.y as int, b.y as int)
}

/// The cells of the rectangle with corners `a` and `b`: all of them where
/// `filled` holds, those of its four edges where not.
pub open spec fn rectangle_cells(a: Position, b: Position, filled: bool) -> Set<(int, int)> {
    Set::new(|p: (int, int)| in_box(a, b, p) && (filled || on_box_edge(a, b, p)))
}

/// Whether the cell `p` lies within the ellipse inscribed in the rectangle
/// with corners `a` and `b`. With `w` and `h` the rectangle's width and
/// height in cells, and `u` and `v` twice the distance of the cell's centre
/// from the rectangle's centre, that is `(u / w)^2 + (v / h)^2 <= 1`.
pub open spec fn in_ellipse(a: Position, b: Position, p: (int, int)) -> bool {
    let w = spec_abs(a.x - b.x) + 1;
    let h = spec_abs(a.y - b.y) + 1;
    let u = 2 * p.0 - (a.x + b.x);
    let v = 2 * p.1 - (a.y + b.y);
    in_box(a, b, p) && (u * u) * (h * h) + (v * v) * (w * w) <= (w * w) * (h * h)
}

/// Whether `p` lies within the ellipse and one of the four cells that
/// share an edge with it does not.
pub open spec fn on_ellipse_edge(a: Position, b: Position, p: (int, int)) -> bool {
    in_ellipse(a, b, p) && !(in_ellipse(a, b, (p.0 - 1, p.1)) && in_ellipse(a, b, (p.0 + 1, p.1))
        && in_ellipse(a, b, (p.0, p.1 - 1)) && in_ellipse(a, b, (p.0, p.1 + 1)))
}

/// The cells of the ellipse inscribed in the rectangle with corners `a`
/// and `b`: its whole interior where `filled` holds, its boundary where
/// not.
pub open spec fn ellipse_cells(a: Position, b: Position, filled: bool) -> Set<(int, int)> {
    Set::new(
        |p: (int, int)|
            if filled {
                in_ellipse(a, b, p)
            } else {
                on_ellipse_edge(a, b, p)
            },
    )
}

/// `p` mirrored at the vertical axis through the rectangle's centre.
pub open spec fn mirror_x(a: Position, b: Position, p: (int, int)) -> (int, int) {
    (a.x + b.x - p.0, p.1)
}

/// `p` mirrored at the horizontal axis through the rectangle's centre.
pub open spec fn mirror_y(a: Position, b: Position, p: (int, int)) -> (int, int) {
    (p.0, a.y + b.y - p.1)
}

/// The interior of the ellipse is its own mirror image, left to right and
/// top to bottom.
pub proof fn lemma_in_ellipse_mirror(a: Position, b: Position, p: (int, int))
    ensures
        in_ellipse(a, b, mirror_x(a, b, p)) == in_ellipse(a, b, p),
        in_ellipse(a, b, mirror_y(a, b, p)) == in_ellipse(a, b, p),
{
    let u = 2 * p.0 - (a.x + b.x);
    let v = 2 * p.1 - (a.y + b.y);
    let mu = 2 * mirror_x(a, b, p).0 - (a.x + b.x);
    let mv = 2 * mirror_y(a, b, p).1 - (a.y + b.y);
    assert(mu == -u);
    assert(mv == -v);
    assert(mu * mu == u * u) by (nonlinear_arith)
        requires
            mu == -u,
    ;
    assert(mv * mv == v * v) by (nonlinear_arith)
        requires
            mv == -v,
    ;
}

/// An ellipse, outline or filled, is symmetric under the horizontal and
/// the vertical mirror of its rectangle.
pub proof fn lemma_ellipse_symmetric(a: Position, b: Position, filled: bool, p: (int, int))
    ensures
        ellipse_cells(a, b, filled).contains(mirror_x(a, b, p)) == ellipse_cells(
            a,
            b,
            filled,
        ).contains(p),
        ellipse_cells(a, b, filled).contains(mirror_y(a, b, p)) == ellipse_cells(
            a,
            b,
            filled,
        ).contains(p),
{
    lemma_in_ellipse_mirror(a, b, p);
    lemma_in_ellipse_mirror(a, b, (p.0 - 1, p.1));
    lemma_in_ellipse_mirror(a, b, (p.0 + 1, p.1));
    lemma_in_ellipse_mirror(a, b, (p.0, p.1 - 1));
    lemma_in_ellipse_mirror(a, b, (p.0, p.1 + 1));
    let mx = mirror_x(a, b, p);
    let my = mirror_y(a, b, p);
    assert((mx.0 - 1, mx.1) == mirror_x(a, b, (p.0 + 1, p.1)));
    assert((mx.0 + 1, mx.1) == mirror_x(a, b, (p.0 - 1, p.1)));
    assert((mx.0, mx.1 - 1) == mirror_x(a, b, (p.0, p.1 - 1)));
    assert((mx.0, mx.1 + 1) == mirror_x(a, b, (p.0, p.1 + 1)));
    assert((my.0 - 1, my.1) == mirror_y(a, b, (p.0 - 1, p.1)));
    assert((my.0 + 1, my.1) == mirror_y(a, b, (p.0 + 1, p.1)));
    assert((my.0, my.1 - 1) == mirror_y(a, b, (p.0, p.1 + 1)));
    assert((my.0, my.1 + 1) == mirror_y(a, b, (p.0, p.1 - 1)));
}

/// Whether `xl` is where the ellipse begins in row `y`: the first column
/// of the rectangle whose cell lies within the ellipse, or one past the
/// last column where the row holds no such cell.
pub open spec fn is_row_left(a: Position, b: Position, y: int, xl: int) -> bool {
    &&& spec_min(a.x as int, b.x as int) <= xl <= spec_max(a.x as int, b.x as int) + 1
    &&& forall|x: int| spec_min(a.x as int, b.x as int) <= x < xl ==> !in_ellipse(a, b, (x, y))
    &&& xl <= spec_max(a.x as int, b.x as int) ==> in_ellipse(a, b, (xl, y))
}

/// Nearer to the vertical axis means within the ellipse, if the farther
/// cell is.
proof fn lemma_ellipse_convex(a: Position, b: Position, x1: int, x2: int, y: int)
    requires
        in_ellipse(a, b, (x1, y)),
        spec_abs(2 * x2 - (a.x + b.x)) <= spec_abs(2 * x1 - (a.x + b.x)),
    ensures
        in_ellipse(a, b, (x2, y)),
{
    let h = spec_abs(a.y - b.y) + 1;
    let u1 = 2 * x1 - (a.x + b.x);
    let u2 = 2 * x2 - (a.x + b.x);
    assert(u2 * u2 <= u1 * u1) by (nonlinear_arith)
        requires
            spec_abs(u2) <= spec_abs(u1),
    ;
    assert((u2 * u2) * (h * h) <= (u1 * u1) * (h * h)) by (nonlinear_arith)
        requires
            u2 * u2 <= u1 * u1,
    ;
}

/// Within its row the ellipse is the interval from where it begins to the
/// mirror image of that column.
pub proof fn lemma_row_interval(a: Position, b: Position, y: int, xl: int, x: int)
    requires
        is_row_left(a, b, y, xl),
    ensures
        in_ellipse(a, b, (x, y)) <==> xl <= x <= a.x + b.x - xl,
{
    let x0 = spec_min(a.x as int, b.x as int);
    let x1 = spec_max(a.x as int, b.x as int);
    assert(x0 + x1 == a.x + b.x);
    if in_ellipse(a, b, (x, y)) {
        // the mirror image lies within as well, so neither comes before xl
        lemma_in_ellipse_mirror(a, b, (x, y));
        assert(in_ellipse(a, b, (x0 + x1 - x, y)));
    }
    if xl <= x <= x0 + x1 - xl {
        assert(xl <= x1);
        lemma_ellipse_convex(a, b, xl, x, y);
    }
}

pub proof fn lemma_cells_none(p: (int, int))
    ensures
        !span_cells(Seq::<Span>::empty()).contains(p),
{
}

pub proof fn lemma_cells_one(s: Span, p: (int, int))
    ensures
        span_cells(seq![s]).contains(p) <==> span_covers(s, p),
{
    let q = seq![s];
    if span_covers(s, p) {
        assert(span_covers(q[0], p));
    }
}

pub proof fn lemma_cells_two(s: Span, t: Span, p: (int, int))
    ensures
        span_cells(seq![s, t]).contains(p) <==> span_covers(s, p) || span_covers(t, p),
{
    let q = seq![s, t];
    if span_covers(s, p) {
        assert(span_covers(q[0], p));
    }
    if span_covers(t, p) {
        assert(span_covers(q[1], p));
    }
}

/// The cells of the line that the first `k` steps give.
pub open spec fn line_prefix(a: Position, b: Position, k: int) -> Set<(int, int)> {
    Set::new(|p: (int, int)| exists|j: int| 0 <= j < k && #[trigger] line_point(a, b, j) == p)
}

proof fn lemma_line_prefix_step(a: Position, b: Position, k: int)
    requires
        0 <= k,
    ensures
        line_prefix(a, b, k + 1) == line_prefix(a, b, k).insert(line_point(a, b, k)),
        line_prefix(a, b, 0) == Set::<(int, int)>::empty(),
        line_prefix(a, b, line_steps(a, b) + 1) == line_cells(a, b),
{
    assert forall|p: (int, int)| line_prefix(a, b, k + 1).contains(p) <==> line_prefix(
        a,
        b,
        k,
    ).insert(line_point(a, b, k)).contains(p) by {
        if line_prefix(a, b, k + 1).contains(p) {
            let j = choose|j: int| 0 <= j < k + 1 && #[trigger] line_point(a, b, j) == p;
            if j < k {
                assert(line_prefix(a, b, k).contains(p));
            }
        }
        if line_prefix(a, b, k).contains(p) {
            let j = choose|j: int| 0 <= j < k && #[trigger] line_point(a, b, j) == p;
            assert(0 <= j < k + 1 && line_point(a, b, j) == p);
        }
        if p == line_point(a, b, k) {
            assert(0 <= k < k + 1 && line_point(a, b, k) == p);
        }
    }
    assert(line_prefix(a, b, k + 1) =~= line_prefix(a, b, k).insert(line_point(a, b, k)));
    assert(line_prefix(a, b, 0) =~= Set::<(int, int)>::empty());
    let n = line_steps(a, b);
    assert forall|p: (int, int)| line_prefix(a, b, n + 1).contains(p) <==> line_cells(a, b).contains(
        p,
    ) by {
        if line_prefix(a, b, n + 1).contains(p) {
            let j = choose|j: int| 0 <= j < n + 1 && #[trigger] line_point(a, b, j) == p;
            assert(0 <= j <= n && line_point(a, b, j) == p);
        }
        if line_cells(a, b).contains(p) {
            let j = choose|j: int| 0 <= j <= n && #[trigger] line_point(a, b, j) == p;
            assert(0 <= j < n + 1 && line_point(a, b, j) == p);
        }
    }
    assert(line_prefix(a, b, n + 1) =~= line_cells(a, b));
}

/// A rounded quotient lies between zero and `k` where the dividend lies
/// between zero and `k` times the divisor.
pub proof fn lemma_div_round_bounds(num: int, den: int, k: int)
    requires
        den > 0,
        0 <= num <= k * den,
    ensures
        0 <= div_round(num, den) <= k,
{
    lemma_div_round_whole(k, den);
    vstd::arithmetic::div_mod::lemma_div_is_ordered(2 * num + den, 2 * (k * den) + den, 2 * den);
    vstd::arithmetic::div_mod::lemma_div_pos_is_pos(2 * num + den, 2 * den);
}

/// The rounded quotient `num / den` of two numbers that are not negative.
fn div_round_exec(num: i64, den: i64) -> (q: i64)
    requires
        den > 0,
        0 <= num <= 0x1000_0000_0000_0000,
        den <= 0x1000_0000,
    ensures
        q == div_round(num as int, den as int),
{
    let top: u64 = 2 * (num as u64) + den as u64;
    let bottom: u64 = 2 * (den as u64);
    proof {
        vstd::arithmetic::div_mod::lemma_div_pos_is_pos(top as int, bottom as int);
        vstd::arithmetic::div_mod::lemma_div_is_ordered_by_denominator(top as int, 1, bottom as int);
        vstd::arithmetic::div_mod::lemma_div_basics(top as int);
    }
    (top / bottom) as i64
}

/// The cells of `shape` in the rows above row `y`.
pub open spec fn rows_above(shape: Set<(int, int)>, y: int) -> Set<(int, int)> {
    Set::new(|p: (int, int)| shape.contains(p) && p.1 < y)
}

/// Appending spans that cover what `shape` holds in row `y` extends the
/// covered rows by that row.
proof fn lemma_row_step(fresh: Seq<Span>, row: Seq<Span>, shape: Set<(int, int)>, y: int)
    requires
        span_cells(fresh) == rows_above(shape, y),
        forall|p: (int, int)| span_cells(row).contains(p) <==> shape.contains(p) && p.1 == y,
    ensures
        span_cells(fresh + row) == rows_above(shape, y + 1),
{
    lemma_cells_concat(fresh, row);
    assert(span_cells(fresh).union(span_cells(row)) =~= rows_above(shape, y + 1));
}

/// Whether the cell `(x, y)` of the rectangle with corners `a` and `b`
/// lies within the inscribed ellipse.
fn ellipse_inside(a: Position, b: Position, x: i32, y: i32) -> (r: bool)
    requires
        a.is_addressable(),
        b.is_addressable(),
        in_box(a, b, (x as int, y as int)),
    ensures
        r == in_ellipse(a, b, (x as int, y as int)),
{
    let dx: i128 = a.x as i128 - b.x as i128;
    let dy: i128 = a.y as i128 - b.y as i128;
    let w: i128 = if dx >= 0 {
        dx + 1
    } else {
        -dx + 1
    };
    let h: i128 = if dy >= 0 {
        dy + 1
    } else {
        -dy + 1
    };
    let u: i128 = 2 * (x as i128) - (a.x as i128 + b.x as i128);
    let v: i128 = 2 * (y as i128) - (a.y as i128 + b.y as i128);
    proof {
        assert(-0x200_0001 <= u <= 0x200_0001);
        assert(-0x200_0001 <= v <= 0x200_0001);
        assert(0 <= u * u <= 0x200_0001 * 0x200_0001) by (nonlinear_arith)
            requires
                -0x200_0001 <= u <= 0x200_0001,
        ;
        assert(0 <= v * v <= 0x200_0001 * 0x200_0001) by (nonlinear_arith)
            requires
                -0x200_0001 <= v <= 0x200_0001,
        ;
        assert(0 <= w * w <= 0x200_0001 * 0x200_0001) by (nonlinear_arith)
            requires
                0 <= w <= 0x200_0001,
        ;
        assert(0 <= h * h <= 0x200_0001 * 0x200_0001) by (nonlinear_arith)
            requires
                0 <= h <= 0x200_0001,
        ;
    }
    let uu: i128 = u * u;
    let vv: i128 = v * v;
    let ww: i128 = w * w;
    let hh: i128 = h * h;
    proof {
        assert(0 <= uu * hh <= 0x4_0000_0400_0001 * 0x4_0000_0400_0001) by (nonlinear_arith)
            requires
                0 <= uu <= 0x4_0000_0400_0001,
                0 <= hh <= 0x4_0000_0400_0001,
        ;
        assert(0 <= vv * ww <= 0x4_0000_0400_0001 * 0x4_0000_0400_0001) by (nonlinear_arith)
            requires
                0 <= vv <= 0x4_0000_0400_0001,
                0 <= ww <= 0x4_0000_0400_0001,
        ;
        assert(0 <= ww * hh <= 0x4_0000_0400_0001 * 0x4_0000_0400_0001) by (nonlinear_arith)
            requires
                0 <= ww <= 0x4_0000_0400_0001,
                0 <= hh <= 0x4_0000_0400_0001,
        ;
    }
    uu * hh + vv * ww <= ww * hh
}

/// What the outline of the ellipse holds in row `y`, given where the
/// ellipse begins in that row and in the rows above and below: the row's
/// interval without the columns that all three rows share, the row's two
/// ends apart.
proof fn lemma_outline_row(a: Position, b: Position, y: int, xl: int, up: int, down: int, x: int)
    requires
        spec_min(a.y as int, b.y as int) <= y <= spec_max(a.y as int, b.y as int),
        is_row_left(a, b, y, xl),
        y > spec_min(a.y as int, b.y as int) ==> is_row_left(a, b, y - 1, up),
        y < spec_max(a.y as int, b.y as int) ==> is_row_left(a, b, y + 1, down),
    ensures
        on_ellipse_edge(a, b, (x, y)) <==> xl <= x <= a.x + b.x - xl && (y == spec_min(
            a.y as int,
            b.y as int,
        ) || y == spec_max(a.y as int, b.y as int) || !(spec_max(spec_max(xl + 1, up), down) <= x
            <= a.x + b.x - spec_max(spec_max(xl + 1, up), down))),
{
    lemma_row_interval(a, b, y, xl, x);
    lemma_row_interval(a, b, y, xl, x - 1);
    lemma_row_interval(a, b, y, xl, x + 1);
    if y > spec_min(a.y as int, b.y as int) {
        lemma_row_interval(a, b, y - 1, up, x);
    }
    if y < spec_max(a.y as int, b.y as int) {
        lemma_row_interval(a, b, y + 1, down, x);
    }
}

impl ScanLines {
    /// No spans.
    pub fn new() -> (r: ScanLines)
        ensures
            r@ == Set::<(int, int)>::empty(),
            r.spans@.len() == 0,
    {
        let r = ScanLines { spans: Vec::new() };
        assert(r@ =~= Set::<(int, int)>::empty());
        r
    }

    /// Adds the cells of the line between `a` and `b`, both included. The
    /// line is stepped from the endpoint that comes first by column and
    /// then by row, so that it does not depend on the order of its ends.
    /// Fails with `InvalidPosition`, and adds nothing, where an endpoint is
    /// not addressable.
    pub fn add_line(&mut self, a: Position, b: Position) -> (r: Result<(), EditError>)
        ensures
            r == if a.is_addressable() && b.is_addressable() {
                Ok::<(), EditError>(())
            } else {
                Err::<(), EditError>(EditError::InvalidPosition)
            },
            r is Ok ==> final(self)@ == old(self)@.union(line_cells(a, b)),
            r is Err ==> final(self).spans@ == old(self).spans@,
    {
        if !a.addressable() || !b.addressable() {
            return Err(EditError::InvalidPosition);
        }
        let first: bool = a.x < b.x || (a.x == b.x && a.y <= b.y);
        let from: Position = if first {
            a
        } else {
            b
        };
        let to: Position = if first {
            b
        } else {
            a
        };
        let dx: i64 = to.x as i64 - from.x as i64;
        let dy: i64 = to.y as i64 - from.y as i64;
        let ady: i64 = if dy >= 0 {
            dy
        } else {
            -dy
        };
        let n: i64 = if dx >= ady {
            dx
        } else {
            ady
        };
        assert(n == line_steps(a, b));
        assert(from == line_from(a, b) && to == line_to(a, b));
        let ghost before = self.spans@;
        let mut fresh: Vec<Span> = Vec::new();
        let mut i: i64 = 0;
        proof {
            lemma_line_prefix_step(a, b, 0);
            assert(span_cells(fresh@) =~= line_prefix(a, b, 0));
        }
        while i <= n
            invariant
                0 <= i <= n + 1,
                a.is_addressable(),
                b.is_addressable(),
                from == line_from(a, b),
                to == line_to(a, b),
                dx == to.x - from.x,
                dy == to.y - from.y,
                ady == spec_abs(dy as int),
                0 <= dx,
                n == line_steps(a, b),
                n == spec_max(dx as int, ady as int),
                span_cells(fresh@) == line_prefix(a, b, i as int),
            decreases n + 1 - i,
        {
            let x: i64;
            let y: i64;
            if n == 0 {
                x = from.x as i64;
                y = from.y as i64;
            } else if dx >= ady {
                proof {
                    assert(0 <= i * ady <= n * ady) by (nonlinear_arith)
                        requires
                            0 <= i <= n,
                            0 <= ady,
                    ;
                    assert(n * ady <= 0x400_0000 * 0x400_0000) by (nonlinear_arith)
                        requires
                            0 <= n <= 0x400_0000,
                            0 <= ady <= 0x400_0000,
                    ;
                    assert(n * ady == ady * n) by (nonlinear_arith);
                    lemma_div_round_bounds(i * ady, n as int, ady as int);
                    if dy >= 0 {
                        assert(i * dy == i * ady);
                    } else {
                        assert(i * (-dy) == i * ady);
                    }
                }
                let q: i64 = div_round_exec(i * ady, n);
                x = from.x as i64 + i;
                y = if dy >= 0 {
                    from.y as i64 + q
                } else {
                    from.y as i64 - q
                };
            } else {
                proof {
                    assert(0 <= i * dx <= n * dx) by (nonlinear_arith)
                        requires
                            0 <= i <= n,
                            0 <= dx,
                    ;
                    assert(n * dx <= 0x400_0000 * 0x400_0000) by (nonlinear_arith)
                        requires
                            0 <= n <= 0x400_0000,
                            0 <= dx <= 0x400_0000,
                    ;
                    assert(n * dx == dx * n) by (nonlinear_arith);
                    lemma_div_round_bounds(i * dx, n as int, dx as int);
                }
                let q: i64 = div_round_exec(i * dx, n);
                x = from.x as i64 + q;
                y = if dy >= 0 {
                    from.y as i64 + i
                } else {
                    from.y as i64 - i
                };
            }
            assert((x as int, y as int) == line_point(a, b, i as int));
            let span = Span { y: y as i32, x_start: x as i32, x_end: x as i32 };
            proof {
                lemma_line_prefix_step(a, b, i as int);
                lemma_cells_concat(fresh@, seq![span]);
                assert(fresh@.push(span) =~= fresh@ + seq![span]);
                assert forall|p: (int, int)| span_cells(seq![span]).contains(p) <==> p == (
                    x as int,
                    y as int,
                ) by {
                    lemma_cells_one(span, p);
                }
                assert(span_cells(fresh@.push(span)) =~= line_prefix(a, b, i as int).insert(
                    (x as int, y as int),
                ));
            }
            fresh.push(span);
            i += 1;
        }
        proof {
            lemma_line_prefix_step(a, b, n as int);
            lemma_cells_concat(before, fresh@);
        }
        self.spans.append(&mut fresh);
        Ok(())
    }

    /// Adds the cells of the rectangle with corners `a` and `b`, whatever
    /// their order: one span per row where `filled` holds, the four edges
    /// where not. Fails with `InvalidPosition`, and adds nothing, where a
    /// corner is not addressable.
    pub fn add_rectangle(&mut self, a: Position, b: Position, filled: bool) -> (r: Result<
        (),
        EditError,
    >)
        ensures
            r == if a.is_addressable() && b.is_addressable() {
                Ok::<(), EditError>(())
            } else {
                Err::<(), EditError>(EditError::InvalidPosition)
            },
            r is Ok ==> final(self)@ == old(self)@.union(rectangle_cells(a, b, filled)),
            r is Err ==> final(self).spans@ == old(self).spans@,
    {
        if !a.addressable() || !b.addressable() {
            return Err(EditError::InvalidPosition);
        }
        let x0: i32 = if a.x <= b.x {
            a.x
        } else {
            b.x
        };
        let x1: i32 = if a.x <= b.x {
            b.x
        } else {
            a.x
        };
        let y0: i32 = if a.y <= b.y {
            a.y
        } else {
            b.y
        };
        let y1: i32 = if a.y <= b.y {
            b.y
        } else {
            a.y
        };
        let ghost before = self.spans@;
        let ghost shape = rectangle_cells(a, b, filled);
        let mut fresh: Vec<Span> = Vec::new();
        let mut y: i32 = y0;
        proof {
            assert(span_cells(fresh@) =~= rows_above(shape, y as int));
        }
        while y <= y1
            invariant
                a.is_addressable(),
                b.is_addressable(),
                x0 == spec_min(a.x as int, b.x as int),
                x1 == spec_max(a.x as int, b.x as int),
                y0 == spec_min(a.y as int, b.y as int),
                y1 == spec_max(a.y as int, b.y as int),
                y0 <= y <= y1 + 1,
                shape == rectangle_cells(a, b, filled),
                span_cells(fresh@) == rows_above(shape, y as int),
            decreases y1 + 1 - y,
        {
            let ghost old_fresh = fresh@;
            if filled || y == y0 || y == y1 || x0 == x1 {
                let s = Span { y, x_start: x0, x_end: x1 };
                fresh.push(s);
                proof {
                    assert(fresh@ =~= old_fresh + seq![s]);
                    assert forall|p: (int, int)| span_cells(seq![s]).contains(p) <==> shape.contains(p)
                        && p.1 == y by {
                        lemma_cells_one(s, p);
                    }
                    lemma_row_step(old_fresh, seq![s], shape, y as int);
                }
            } else {
                let s = Span { y, x_start: x0, x_end: x0 };
                let t = Span { y, x_start: x1, x_end: x1 };
                fresh.push(s);
                fresh.push(t);
                proof {
                    assert(fresh@ =~= old_fresh + seq![s, t]);
                    assert forall|p: (int, int)| span_cells(seq![s, t]).contains(p) <==> shape.contains(
                        p,
                    ) && p.1 == y by {
                        lemma_cells_two(s, t, p);
                    }
                    lemma_row_step(old_fresh, seq![s, t], shape, y as int);
                }
            }
            y += 1;
        }
        proof {
            assert(rows_above(shape, y1 + 1) =~= shape);
            lemma_cells_concat(before, fresh@);
        }
        self.spans.append(&mut fresh);
        Ok(())
    }

    /// Adds the cells of the ellipse inscribed in the rectangle with
    /// corners `a` and `b`, whatever their order: per row the whole span
    /// between the two boundary cells where `filled` holds, the boundary
    /// cells alone where not. Fails with `InvalidPosition`, and adds
    /// nothing, where a corner is not addressable.
    pub fn add_ellipse(&mut self, a: Position, b: Position, filled: bool) -> (r: Result<
        (),
        EditError,
    >)
        ensures
            r == if a.is_addressable() && b.is_addressable() {
                Ok::<(), EditError>(())
            } else {
                Err::<(), EditError>(EditError::InvalidPosition)
            },
            r is Ok ==> final(self)@ == old(self)@.union(ellipse_cells(a, b, filled)),
            r is Err ==> final(self).spans@ == old(self).spans@,
    {
        if !a.addressable() || !b.addressable() {
            return Err(EditError::InvalidPosition);
        }
        let x0: i32 = if a.x <= b.x {
            a.x
        } else {
            b.x
        };
        let x1: i32 = if a.x <= b.x {
            b.x
        } else {
            a.x
        };
        let y0: i32 = if a.y <= b.y {
            a.y
        } else {
            b.y
        };
        let y1: i32 = if a.y <= b.y {
            b.y
        } else {
            a.y
        };
        // where the ellipse begins in each row
        let mut lefts: Vec<i32> = Vec::new();
        let mut y: i32 = y0;
        while y <= y1
            invariant
                a.is_addressable(),
                b.is_addressable(),
                x0 == spec_min(a.x as int, b.x as int),
                x1 == spec_max(a.x as int, b.x as int),
                y0 == spec_min(a.y as int, b.y as int),
                y1 == spec_max(a.y as int, b.y as int),
                y0 <= y <= y1 + 1,
                lefts@.len() == y - y0,
                forall|k: int| 0 <= k < lefts@.len() ==> is_row_left(a, b, y0 + k, #[trigger] lefts@[k] as int),
            decreases y1 + 1 - y,
        {
            let mut xl: i32 = x0;
            let mut found: bool = false;
            while xl <= x1 && !found
                invariant
                    a.is_addressable(),
                    b.is_addressable(),
                    x0 == spec_min(a.x as int, b.x as int),
                    x1 == spec_max(a.x as int, b.x as int),
                    y0 == spec_min(a.y as int, b.y as int),
                    y1 == spec_max(a.y as int, b.y as int),
                    y0 <= y <= y1,
                    x0 <= xl <= x1 + 1,
                    forall|x: int| x0 <= x < xl ==> !in_ellipse(a, b, (x, y as int)),
                    found ==> xl <= x1 && in_ellipse(a, b, (xl as int, y as int)),
                decreases x1 + 1 - xl + if found { 0int } else { 1int },
            {
                if ellipse_inside(a, b, xl, y) {
                    found = true;
                } else {
                    xl += 1;
                }
            }
            lefts.push(xl);
            y += 1;
        }
        let ghost before = self.spans@;
        let ghost shape = ellipse_cells(a, b, filled);
        let mut fresh: Vec<Span> = Vec::new();
        let mut k: usize = 0;
        let n: usize = lefts.len();
        proof {
            assert(span_cells(fresh@) =~= rows_above(shape, y0 as int));
        }
        while k < n
            invariant
                a.is_addressable(),
                b.is_addressable(),
                x0 == spec_min(a.x as int, b.x as int),
                x1 == spec_max(a.x as int, b.x as int),
                y0 == spec_min(a.y as int, b.y as int),
                y1 == spec_max(a.y as int, b.y as int),
                n == lefts@.len(),
                n == y1 - y0 + 1,
                k <= n,
                forall|j: int| 0 <= j < lefts@.len() ==> is_row_left(a, b, y0 + j, #[trigger] lefts@[j] as int),
                shape == ellipse_cells(a, b, filled),
                span_cells(fresh@) == rows_above(shape, y0 + k),
            decreases n - k,
        {
            let ghost old_fresh = fresh@;
            let y: i32 = (y0 as i64 + k as i64) as i32;
            let xl: i32 = lefts[k];
            assert(is_row_left(a, b, y0 + k, lefts@[k as int] as int));
            let xr: i32 = (x0 as i64 + x1 as i64 - xl as i64) as i32;
            let up: i32 = if k > 0 {
                lefts[k - 1]
            } else {
                x0
            };
            let down: i32 = if k + 1 < n {
                lefts[k + 1]
            } else {
                x0
            };
            proof {
                if k > 0 {
                    assert(is_row_left(a, b, y0 + (k - 1), lefts@[k - 1] as int));
                }
                if k + 1 < n {
                    assert(is_row_left(a, b, y0 + (k + 1), lefts@[k + 1] as int));
                }
            }
            let m1: i32 = if xl + 1 >= up {
                xl + 1
            } else {
                up
            };
            let il: i32 = if m1 >= down {
                m1
            } else {
                down
            };
            let ir: i64 = x0 as i64 + x1 as i64 - il as i64;
            proof {
                assert forall|x: int| shape.contains((x, y as int)) <==> (xl <= x <= xr && (filled
                    || y == y0 || y == y1 || !(il <= x <= ir))) by {
                    lemma_row_interval(a, b, y as int, xl as int, x);
                    lemma_outline_row(a, b, y as int, xl as int, up as int, down as int, x);
                }
            }
            if xl > x1 {
                proof {
                    assert(fresh@ =~= old_fresh + Seq::<Span>::empty());
                    assert forall|p: (int, int)| span_cells(Seq::<Span>::empty()).contains(p)
                        <==> shape.contains(p) && p.1 == y by {
                        lemma_cells_none(p);
                        if p.1 == y {
                            assert(!shape.contains((p.0, y as int)));
                        }
                    }
                    lemma_row_step(old_fresh, Seq::<Span>::empty(), shape, y as int);
                }
            } else if filled || k == 0 || k + 1 == n || il as i64 > ir {
                let s = Span { y, x_start: xl, x_end: xr };
                fresh.push(s);
                proof {
                    assert(fresh@ =~= old_fresh + seq![s]);
                    assert forall|p: (int, int)| span_cells(seq![s]).contains(p) <==> shape.contains(p)
                        && p.1 == y by {
                        lemma_cells_one(s, p);
                        if p.1 == y {
                            assert(shape.contains((p.0, y as int)) == shape.contains(p));
                        }
                    }
                    lemma_row_step(old_fresh, seq![s], shape, y as int);
                }
            } else {
                let s = Span { y, x_start: xl, x_end: il - 1 };
                let t = Span { y, x_start: (ir + 1) as i32, x_end: xr };
                fresh.push(s);
                fresh.push(t);
                proof {
                    assert(fresh@ =~= old_fresh + seq![s, t]);
                    assert forall|p: (int, int)| span_cells(seq![s, t]).contains(p) <==> shape.contains(
                        p,
                    ) && p.1 == y by {
                        lemma_cells_two(s, t, p);
                        if p.1 == y {
                            assert(shape.contains((p.0, y as int)) == shape.contains(p));
                        }
                    }
                    lemma_row_step(old_fresh, seq![s, t], shape, y as int);
                }
            }
            k += 1;
        }
        proof {
            assert(rows_above(shape, y1 + 1) =~= shape);
            lemma_cells_concat(before, fresh@);
        }
        self.spans.append(&mut fresh);
        Ok(())
    }
}

} // verus!
