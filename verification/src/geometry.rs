//! Points, sizes and axis-aligned rectangles on the integer pixel lattice.

use vstd::prelude::*;

verus! {

/// A position on the pixel lattice.
#[derive(Clone, Copy, Debug, PartialEq, Eq, Structural)]
pub struct Point {
    pub x: i64,
    pub y: i64,
}

/// The extent of a rectangle, in pixels.
#[derive(Clone, Copy, Debug, PartialEq, Eq, Structural)]
pub struct Size {
    pub width: u32,
    pub height: u32,
}

/// An axis-aligned rectangle. It covers the columns
/// `origin.x <= x < origin.x + size.width` and the rows
/// `origin.y <= y < origin.y + size.height`: the right and bottom edges are
/// excluded.
#[derive(Clone, Copy, Debug, PartialEq, Eq, Structural)]
pub struct Rect {
    pub origin: Point,
    pub size: Size,
}

impl Point {
    pub fn new(x: i64, y: i64) -> (p: Point)
        ensures
            p.x == x,
            p.y == y,
    {
        Point { x, y }
    }

    /// Scan order is row-major: `self` comes at or after `other` when it lies
    /// on a later row, or on the same row and not to the left of it.
    pub open spec fn at_or_after(self, other: Point) -> bool {
        self.y > other.y || (self.y == other.y && self.x >= other.x)
    }

    /// Strictly earlier in scan order.
    pub open spec fn before(self, other: Point) -> bool {
        self.y < other.y || (self.y == other.y && self.x < other.x)
    }

    /// Whether `self` comes at or after `other` in scan order.
    pub fn is_at_or_after(&self, other: Point) -> (b: bool)
        ensures
            b == self.at_or_after(other),
    {
        self.y > other.y || (self.y == other.y && self.x >= other.x)
    }
}

impl Size {
    pub fn new(width: u32, height: u32) -> (s: Size)
        ensures
            s.width == width,
            s.height == height,
    {
        Size { width, height }
    }
}

impl Rect {
    pub fn new(origin: Point, size: Size) -> (r: Rect)
        ensures
            r.origin == origin,
            r.size == size,
    {
        Rect { origin, size }
    }

    /// The first column right of the rectangle.
    pub open spec fn max_x(self) -> int {
        self.origin.x + self.size.width
    }

    /// The first row below the rectangle.
    pub open spec fn max_y(self) -> int {
        self.origin.y + self.size.height
    }

    /// The rectangle covers no pixel.
    pub open spec fn is_empty(self) -> bool {
        self.size.width == 0 || self.size.height == 0
    }

    /// The containment rule for points: left and top edges included, right
    /// and bottom edges excluded.
    pub open spec fn contains_point(self, p: Point) -> bool {
        self.origin.x <= p.x < self.max_x() && self.origin.y <= p.y < self.max_y()
    }

    /// Every pixel of `r` (and its origin, should `r` be empty) lies inside
    /// `self`: the far edges of `r` may coincide with those of `self`.
    pub open spec fn contains_rect(self, r: Rect) -> bool {
        self.origin.x <= r.origin.x && r.max_x() <= self.max_x() && self.origin.y <= r.origin.y
            && r.max_y() <= self.max_y()
    }

    /// The two rectangles share at least one pixel.
    pub open spec fn overlaps(self, other: Rect) -> bool {
        let x0 = if self.origin.x >= other.origin.x { self.origin.x } else { other.origin.x };
        let y0 = if self.origin.y >= other.origin.y { self.origin.y } else { other.origin.y };
        let x1 = if self.max_x() <= other.max_x() { self.max_x() } else { other.max_x() };
        let y1 = if self.max_y() <= other.max_y() { self.max_y() } else { other.max_y() };
        x0 < x1 && y0 < y1
    }

    /// The rectangle of the pixels common to both. Where there are none it is
    /// the zero-size rectangle at `(0, 0)`.
    pub open spec fn intersect(self, other: Rect) -> Rect {
        let x0 = if self.origin.x >= other.origin.x { self.origin.x } else { other.origin.x };
        let y0 = if self.origin.y >= other.origin.y { self.origin.y } else { other.origin.y };
        let x1 = if self.max_x() <= other.max_x() { self.max_x() } else { other.max_x() };
        let y1 = if self.max_y() <= other.max_y() { self.max_y() } else { other.max_y() };
        if x0 < x1 && y0 < y1 {
            Rect {
                origin: Point { x: x0, y: y0 },
                size: Size { width: (x1 - x0) as u32, height: (y1 - y0) as u32 },
            }
        } else {
            Rect { origin: Point { x: 0, y: 0 }, size: Size { width: 0, height: 0 } }
        }
    }

    /// Whether the rectangle covers `p`.
    pub fn is_point_visible(&self, p: Point) -> (b: bool)
        ensures
            b == self.contains_point(p),
    {
        let px: i128 = p.x as i128;
        let py: i128 = p.y as i128;
        let x0: i128 = self.origin.x as i128;
        let y0: i128 = self.origin.y as i128;
        let x1: i128 = x0 + self.size.width as i128;
        let y1: i128 = y0 + self.size.height as i128;
        x0 <= px && px < x1 && y0 <= py && py < y1
    }

    /// Whether `r` lies inside the rectangle.
    pub fn is_rect_visible(&self, r: Rect) -> (b: bool)
        ensures
            b == self.contains_rect(r),
    {
        let sx0: i128 = self.origin.x as i128;
        let sy0: i128 = self.origin.y as i128;
        let sx1: i128 = sx0 + self.size.width as i128;
        let sy1: i128 = sy0 + self.size.height as i128;
        let rx0: i128 = r.origin.x as i128;
        let ry0: i128 = r.origin.y as i128;
        let rx1: i128 = rx0 + r.size.width as i128;
        let ry1: i128 = ry0 + r.size.height as i128;
        sx0 <= rx0 && rx1 <= sx1 && sy0 <= ry0 && ry1 <= sy1
    }

    /// The pixels common to `self` and `other`.
    pub fn intersection(&self, other: Rect) -> (r: Rect)
        ensures
            r == self.intersect(other),
    {
        let sx0: i128 = self.origin.x as i128;
        let sy0: i128 = self.origin.y as i128;
        let sx1: i128 = sx0 + self.size.width as i128;
        let sy1: i128 = sy0 + self.size.height as i128;
        let ox0: i128 = other.origin.x as i128;
        let oy0: i128 = other.origin.y as i128;
        let ox1: i128 = ox0 + other.size.width as i128;
        let oy1: i128 = oy0 + other.size.height as i128;
        let x0: i128 = if sx0 >= ox0 { sx0 } else { ox0 };
        let y0: i128 = if sy0 >= oy0 { sy0 } else { oy0 };
        let x1: i128 = if sx1 <= ox1 { sx1 } else { ox1 };
        let y1: i128 = if sy1 <= oy1 { sy1 } else { oy1 };
        if x0 < x1 && y0 < y1 {
            Rect {
                origin: Point { x: x0 as i64, y: y0 as i64 },
                size: Size { width: (x1 - x0) as u32, height: (y1 - y0) as u32 },
            }
        } else {
            Rect { origin: Point { x: 0, y: 0 }, size: Size { width: 0, height: 0 } }
        }
    }
}

} // verus!
