//! Integer positions, sizes and rectangles on the character grid.

use vstd::prelude::*;

verus! {

/// Largest absolute coordinate that drawing gestures accept.
pub const MAX_COORD: i32 = 0x0100_0000;

/// A grid position. `x` grows to the right, `y` downwards.
#[derive(Clone, Copy, Debug, PartialEq, Eq, Structural, Hash)]
pub struct Position {
    pub x: i32,
    pub y: i32,
}

/// A width and a height, in cells.
#[derive(Clone, Copy, Debug, PartialEq, Eq, Structural, Hash)]
pub struct Size {
    pub width: i32,
    pub height: i32,
}

/// The cells `(x, y)` with `start.x <= x < start.x + size.width` and
/// `start.y <= y < start.y + size.height`.
#[derive(Clone, Copy, Debug, PartialEq, Eq, Structural, Hash)]
pub struct Rectangle {
    pub start: Position,
    pub size: Size,
}

pub open spec fn spec_min(a: int, b: int) -> int {
    if a <= b {
        a
    } else {
        b
    }
}

pub open spec fn spec_max(a: int, b: int) -> int {
    if a >= b {
        a
    } else {
        b
    }
}

pub open spec fn spec_abs(a: int) -> int {
    if a >= 0 {
        a
    } else {
        -a
    }
}

impl Position {
    /// Whether both coordinates lie within `MAX_COORD` of the origin.
    pub open spec fn is_addressable(self) -> bool {
        &&& -MAX_COORD <= self.x <= MAX_COORD
        &&& -MAX_COORD <= self.y <= MAX_COORD
    }

    pub fn new(x: i32, y: i32) -> (p: Position)
        ensures
            p == (Position { x, y }),
    {
        Position { x, y }
    }

    /// Whether both coordinates lie within `MAX_COORD` of the origin.
    pub fn addressable(self) -> (r: bool)
        ensures
            r == self.is_addressable(),
    {
        -MAX_COORD <= self.x && self.x <= MAX_COORD && -MAX_COORD <= self.y && self.y
            <= MAX_COORD
    }

    /// The position moved by `delta`, where both sums are representable.
    pub fn checked_add(self, delta: Position) -> (r: Option<Position>)
        ensures
            r == if i32::MIN <= self.x + delta.x <= i32::MAX && i32::MIN <= self.y + delta.y
                <= i32::MAX {
                Some(Position { x: (self.x + delta.x) as i32, y: (self.y + delta.y) as i32 })
            } else {
                None
            },
    {
        let x: i64 = self.x as i64 + delta.x as i64;
        let y: i64 = self.y as i64 + delta.y as i64;
        if x < i32::MIN as i64 || x > i32::MAX as i64 || y < i32::MIN as i64 || y
            > i32::MAX as i64 {
            None
        } else {
            Some(Position { x: x as i32, y: y as i32 })
        }
    }
}

impl Size {
    pub fn new(width: i32, height: i32) -> (s: Size)
        ensures
            s == (Size { width, height }),
    {
        Size { width, height }
    }
}

impl Rectangle {
    pub open spec fn spec_left(self) -> int {
        self.start.x as int
    }

    pub open spec fn spec_top(self) -> int {
        self.start.y as int
    }

    /// One past the last column.
    pub open spec fn spec_right(self) -> int {
        self.start.x + self.size.width
    }

    /// One past the last row.
    pub open spec fn spec_bottom(self) -> int {
        self.start.y + self.size.height
    }

    pub open spec fn spec_contains(self, x: int, y: int) -> bool {
        self.spec_left() <= x < self.spec_right() && self.spec_top() <= y < self.spec_bottom()
    }

    /// The smallest rectangle that holds both cells, whatever their order;
    /// `None` where its extent is not representable.
    pub open spec fn spec_from_pt(p1: Position, p2: Position) -> Option<Rectangle> {
        let w = spec_abs(p1.x - p2.x) + 1;
        let h = spec_abs(p1.y - p2.y) + 1;
        if w <= i32::MAX && h <= i32::MAX {
            Some(
                Rectangle {
                    start: Position {
                        x: spec_min(p1.x as int, p2.x as int) as i32,
                        y: spec_min(p1.y as int, p2.y as int) as i32,
                    },
                    size: Size { width: w as i32, height: h as i32 },
                },
            )
        } else {
            None
        }
    }

    /// The common part of two rectangles; its size is zero in a direction
    /// in which they do not overlap.
    pub open spec fn spec_intersect(self, other: Rectangle) -> Rectangle {
        let left = spec_max(self.spec_left(), other.spec_left());
        let top = spec_max(self.spec_top(), other.spec_top());
        let right = spec_min(self.spec_right(), other.spec_right());
        let bottom = spec_min(self.spec_bottom(), other.spec_bottom());
        Rectangle {
            start: Position { x: left as i32, y: top as i32 },
            size: Size {
                width: spec_max(0, right - left) as i32,
                height: spec_max(0, bottom - top) as i32,
            },
        }
    }

    /// Sizes are not negative.
    pub open spec fn wf(self) -> bool {
        self.size.width >= 0 && self.size.height >= 0
    }

    pub fn new(start: Position, size: Size) -> (r: Rectangle)
        ensures
            r == (Rectangle { start, size }),
    {
        Rectangle { start, size }
    }

    pub fn from_pt(p1: Position, p2: Position) -> (r: Option<Rectangle>)
        ensures
            r == Self::spec_from_pt(p1, p2),
            p1.is_addressable() && p2.is_addressable() ==> r is Some,
            r matches Some(rect) ==> rect.wf() && rect.spec_contains(p1.x as int, p1.y as int)
                && rect.spec_contains(p2.x as int, p2.y as int),
    {
        let dx: i64 = p1.x as i64 - p2.x as i64;
        let dy: i64 = p1.y as i64 - p2.y as i64;
        let w: i64 = if dx >= 0 {
            dx + 1
        } else {
            -dx + 1
        };
        let h: i64 = if dy >= 0 {
            dy + 1
        } else {
            -dy + 1
        };
        if w > i32::MAX as i64 || h > i32::MAX as i64 {
            return None;
        }
        let x: i32 = if p1.x <= p2.x {
            p1.x
        } else {
            p2.x
        };
        let y: i32 = if p1.y <= p2.y {
            p1.y
        } else {
            p2.y
        };
        Some(Rectangle { start: Position { x, y }, size: Size { width: w as i32, height: h as i32 } })
    }

    pub fn left(&self) -> (r: i32)
        ensures
            r == self.spec_left(),
    {
        self.start.x
    }

    pub fn top(&self) -> (r: i32)
        ensures
            r == self.spec_top(),
    {
        self.start.y
    }

    /// One past the last column.
    pub fn right(&self) -> (r: i64)
        ensures
            r == self.spec_right(),
    {
        self.start.x as i64 + self.size.width as i64
    }

    /// One past the last row.
    pub fn bottom(&self) -> (r: i64)
        ensures
            r == self.spec_bottom(),
    {
        self.start.y as i64 + self.size.height as i64
    }

    pub fn get_width(&self) -> (r: i32)
        ensures
            r == self.size.width,
    {
        self.size.width
    }

    pub fn get_height(&self) -> (r: i32)
        ensures
            r == self.size.height,
    {
        self.size.height
    }

    pub fn contains(&self, pos: Position) -> (r: bool)
        ensures
            r == self.spec_contains(pos.x as int, pos.y as int),
    {
        let x: i64 = pos.x as i64;
        let y: i64 = pos.y as i64;
        self.start.x as i64 <= x && x < self.right() && self.start.y as i64 <= y && y
            < self.bottom()
    }

    pub fn intersect(&self, other: &Rectangle) -> (r: Rectangle)
        ensures
            r == self.spec_intersect(*other),
            r.wf(),
            forall|x: int, y: int|
                r.spec_contains(x, y) <==> self.spec_contains(x, y) && other.spec_contains(x, y),
    {
        let left: i32 = if self.start.x >= other.start.x {
            self.start.x
        } else {
            other.start.x
        };
        let top: i32 = if self.start.y >= other.start.y {
            self.start.y
        } else {
            other.start.y
        };
        let r1: i64 = self.right();
        let r2: i64 = other.right();
        let right: i64 = if r1 <= r2 {
            r1
        } else {
            r2
        };
        let b1: i64 = self.bottom();
        let b2: i64 = other.bottom();
        let bottom: i64 = if b1 <= b2 {
            b1
        } else {
            b2
        };
        let width: i64 = if right - left as i64 > 0 {
            right - left as i64
        } else {
            0
        };
        let height: i64 = if bottom - top as i64 > 0 {
            bottom - top as i64
        } else {
            0
        };
        Rectangle {
            start: Position { x: left, y: top },
            size: Size { width: width as i32, height: height as i32 },
        }
    }

    /// The rectangle moved so that `origin` becomes `(0, 0)`, where the new
    /// corner is representable.
    pub fn relative_to(&self, origin: Position) -> (r: Option<Rectangle>)
        ensures
            r == if i32::MIN <= self.start.x - origin.x <= i32::MAX && i32::MIN <= self.start.y
                - origin.y <= i32::MAX {
                Some(
                    Rectangle {
                        start: Position {
                            x: (self.start.x - origin.x) as i32,
                            y: (self.start.y - origin.y) as i32,
                        },
                        size: self.size,
                    },
                )
            } else {
                None
            },
    {
        let x: i64 = self.start.x as i64 - origin.x as i64;
        let y: i64 = self.start.y as i64 - origin.y as i64;
        if x < i32::MIN as i64 || x > i32::MAX as i64 || y < i32::MIN as i64 || y
            > i32::MAX as i64 {
            None
        } else {
            Some(Rectangle { start: Position { x: x as i32, y: y as i32 }, size: self.size })
        }
    }
}

} // verus!
