//! Plain value types: points, sizes, rectangles and one-dimensional ranges.

use vstd::prelude::*;

verus! {

/// Largest magnitude of a coordinate, a length or an offset that the placement
/// solver accepts. Results stay well inside `i64` for inputs within this limit.
pub const COORD_LIMIT: i64 = 0x1000_0000_0000_0000;

/// Mathematical model of a range on one axis.
pub ghost struct Span {
    pub start: int,
    pub end: int,
}

impl Span {
    pub open spec fn len(self) -> int {
        self.end - self.start
    }

    /// Both ends of `self` lie inside `outer`.
    pub open spec fn fits_in(self, outer: Span) -> bool {
        outer.start <= self.start && self.end <= outer.end
    }

    pub open spec fn in_limits(self) -> bool {
        &&& -COORD_LIMIT <= self.start <= COORD_LIMIT
        &&& -COORD_LIMIT <= self.end <= COORD_LIMIT
    }
}

/// A range `[start, end]` on one axis.
#[derive(Clone, Copy, Debug, PartialEq, Eq, Structural)]
pub struct AxisRange {
    pub start: i64,
    pub end: i64,
}

impl View for AxisRange {
    type V = Span;

    open spec fn view(&self) -> Span {
        Span { start: self.start as int, end: self.end as int }
    }
}

impl AxisRange {
    pub fn new(start: i64, end: i64) -> (r: AxisRange)
        ensures
            r.start == start,
            r.end == end,
    {
        AxisRange { start, end }
    }
}

/// A position in viewport coordinates.
#[derive(Clone, Copy, Debug, PartialEq, Eq, Structural)]
pub struct Point {
    pub x: i64,
    pub y: i64,
}

/// The extent of a piece of content.
#[derive(Clone, Copy, Debug, PartialEq, Eq, Structural)]
pub struct Size {
    pub width: i32,
    pub height: i32,
}

impl Size {
    pub fn new(width: i32, height: i32) -> (s: Size)
        ensures
            s.width == width,
            s.height == height,
    {
        Size { width, height }
    }
}

/// A rectangle in viewport coordinates, given by its top-left corner and its
/// extent. A negative extent is tolerated and simply yields an inverted range.
#[derive(Clone, Copy, Debug, PartialEq, Eq, Structural)]
pub struct Rect {
    pub x: i32,
    pub y: i32,
    pub width: i32,
    pub height: i32,
}

impl Rect {
    pub fn new(x: i32, y: i32, width: i32, height: i32) -> (r: Rect)
        ensures
            r.x == x,
            r.y == y,
            r.width == width,
            r.height == height,
    {
        Rect { x, y, width, height }
    }

    pub open spec fn horizontal_span(self) -> Span {
        Span { start: self.x as int, end: self.x + self.width }
    }

    pub open spec fn vertical_span(self) -> Span {
        Span { start: self.y as int, end: self.y + self.height }
    }

    pub fn min_x(&self) -> (r: i64)
        ensures
            r == self.x,
    {
        self.x as i64
    }

    pub fn max_x(&self) -> (r: i64)
        ensures
            r == self.x + self.width,
    {
        self.x as i64 + self.width as i64
    }

    pub fn min_y(&self) -> (r: i64)
        ensures
            r == self.y,
    {
        self.y as i64
    }

    pub fn max_y(&self) -> (r: i64)
        ensures
            r == self.y + self.height,
    {
        self.y as i64 + self.height as i64
    }

    /// The extent of the rectangle along the horizontal axis.
    pub fn horizontal_range(&self) -> (r: AxisRange)
        ensures
            r@ == self.horizontal_span(),
            r@.in_limits(),
    {
        AxisRange { start: self.min_x(), end: self.max_x() }
    }

    /// The extent of the rectangle along the vertical axis.
    pub fn vertical_range(&self) -> (r: AxisRange)
        ensures
            r@ == self.vertical_span(),
            r@.in_limits(),
    {
        AxisRange { start: self.min_y(), end: self.max_y() }
    }

    pub fn size(&self) -> (s: Size)
        ensures
            s.width == self.width,
            s.height == self.height,
    {
        Size { width: self.width, height: self.height }
    }
}

} // verus!
