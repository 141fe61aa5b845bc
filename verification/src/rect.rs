//! Rectangles in screen pixels.

use vstd::prelude::*;

verus! {

/// A rectangle by its edges.
#[derive(Clone, Copy, Debug, PartialEq, Eq, Structural)]
pub struct Rect {
    pub left: i32,
    pub top: i32,
    pub right: i32,
    pub bottom: i32,
}

/// Whether a number of pixels fits in an `i32`.
pub open spec fn fits(value: int) -> bool {
    i32::MIN <= value <= i32::MAX
}

pub open spec fn least(a: i32, b: i32) -> i32 {
    if a <= b {
        a
    } else {
        b
    }
}

pub open spec fn greatest(a: i32, b: i32) -> i32 {
    if a >= b {
        a
    } else {
        b
    }
}

/// The smaller of two edges.
fn min_edge(a: i32, b: i32) -> (edge: i32)
    ensures
        edge == least(a, b),
{
    if a <= b {
        a
    } else {
        b
    }
}

/// The larger of two edges.
fn max_edge(a: i32, b: i32) -> (edge: i32)
    ensures
        edge == greatest(a, b),
{
    if a >= b {
        a
    } else {
        b
    }
}

impl Rect {
    pub open spec fn spec_width(self) -> int {
        self.right - self.left
    }

    pub open spec fn spec_height(self) -> int {
        self.bottom - self.top
    }

    /// Whether both extents can be told as an `i32`.
    pub open spec fn measurable(self) -> bool {
        fits(self.spec_width()) && fits(self.spec_height())
    }

    /// Whether a point is inside or on the edge of the rectangle.
    pub open spec fn covers(self, x: int, y: int) -> bool {
        self.left <= x <= self.right && self.top <= y <= self.bottom
    }

    /// The rectangle with its corner at `x`, `y` and the given extent.
    pub fn from_xy(x: i32, y: i32, width: i32, height: i32) -> (rect: Self)
        requires
            fits(x + width),
            fits(y + height),
        ensures
            rect.left == x,
            rect.top == y,
            rect.right == x + width,
            rect.bottom == y + height,
            rect.spec_width() == width,
            rect.spec_height() == height,
    {
        Rect { left: x, top: y, right: x + width, bottom: y + height }
    }

    pub fn x(&self) -> (x: i32)
        ensures
            x == self.left,
    {
        self.left
    }

    pub fn y(&self) -> (y: i32)
        ensures
            y == self.top,
    {
        self.top
    }

    pub fn width(&self) -> (width: i32)
        requires
            fits(self.spec_width()),
        ensures
            width == self.spec_width(),
            width == self.right - self.left,
    {
        self.right - self.left
    }

    pub fn height(&self) -> (height: i32)
        requires
            fits(self.spec_height()),
        ensures
            height == self.spec_height(),
            height == self.bottom - self.top,
    {
        self.bottom - self.top
    }

    /// The same extent with its corner moved to `x`, `y`.
    pub fn translate_to_coordinates(&self, x: i32, y: i32) -> (rect: Self)
        requires
            self.measurable(),
            fits(x + self.spec_width()),
            fits(y + self.spec_height()),
        ensures
            rect.left == x,
            rect.top == y,
            rect.right - rect.left == self.right - self.left,
            rect.bottom - rect.top == self.bottom - self.top,
            rect.spec_width() == self.spec_width(),
            rect.spec_height() == self.spec_height(),
    {
        Self::from_xy(x, y, self.width(), self.height())
    }

    pub open spec fn spec_union(self, other: Self) -> Self {
        Rect {
            left: least(self.left, other.left),
            top: least(self.top, other.top),
            right: greatest(self.right, other.right),
            bottom: greatest(self.bottom, other.bottom),
        }
    }

    /// The bounding box of both rectangles.
    pub fn union(&self, other: &Self) -> (rect: Self)
        ensures
            rect == self.spec_union(*other),
    {
        Rect {
            left: min_edge(self.left, other.left),
            top: min_edge(self.top, other.top),
            right: max_edge(self.right, other.right),
            bottom: max_edge(self.bottom, other.bottom),
        }
    }

    pub open spec fn spec_crop(self, bounds: Self) -> Self {
        Rect {
            left: greatest(self.left, bounds.left),
            top: greatest(self.top, bounds.top),
            right: least(self.right, bounds.right),
            bottom: least(self.bottom, bounds.bottom),
        }
    }

    /// The part of the rectangle that lies within `bounds`.
    pub fn crop(&self, bounds: &Self) -> (rect: Self)
        ensures
            rect == self.spec_crop(*bounds),
    {
        Rect {
            left: max_edge(self.left, bounds.left),
            top: max_edge(self.top, bounds.top),
            right: min_edge(self.right, bounds.right),
            bottom: min_edge(self.bottom, bounds.bottom),
        }
    }

    /// The rectangle in coordinates whose origin is at the other end of a
    /// vertical axis of length `height`: the top edge's distance from one end
    /// becomes the bottom edge's distance from the other.
    pub fn flip_y(&self, height: i32) -> (rect: Self)
        requires
            fits(height - self.top),
            fits(height - self.bottom),
        ensures
            rect.left == self.left,
            rect.right == self.right,
            rect.top == height - self.bottom,
            rect.bottom == height - self.top,
    {
        Rect {
            left: self.left,
            top: height - self.bottom,
            right: self.right,
            bottom: height - self.top,
        }
    }
}

/// A bounding box covers whatever either rectangle covers, and cropping covers
/// exactly what both cover.
pub proof fn law_union_and_crop_cover(a: Rect, b: Rect, x: int, y: int)
    ensures
        a.covers(x, y) || b.covers(x, y) ==> a.spec_union(b).covers(x, y),
        a.spec_crop(b).covers(x, y) <==> a.covers(x, y) && b.covers(x, y),
{
}

/// A bounding box reaches out to the farther of the two edges on each side and
/// no farther, and cropping comes in to the nearer.
pub proof fn law_edges_of_union_and_crop(a: Rect, b: Rect)
    ensures
        ({
            let u = a.spec_union(b);
            let c = a.spec_crop(b);
            &&& u.left <= a.left && u.left <= b.left && (u.left == a.left || u.left == b.left)
            &&& u.top <= a.top && u.top <= b.top && (u.top == a.top || u.top == b.top)
            &&& u.right >= a.right && u.right >= b.right && (u.right == a.right || u.right
                == b.right)
            &&& u.bottom >= a.bottom && u.bottom >= b.bottom && (u.bottom == a.bottom || u.bottom
                == b.bottom)
            &&& c.left >= a.left && c.left >= b.left && (c.left == a.left || c.left == b.left)
            &&& c.top >= a.top && c.top >= b.top && (c.top == a.top || c.top == b.top)
            &&& c.right <= a.right && c.right <= b.right && (c.right == a.right || c.right
                == b.right)
            &&& c.bottom <= a.bottom && c.bottom <= b.bottom && (c.bottom == a.bottom || c.bottom
                == b.bottom)
        }),
{
}

/// The order of two rectangles does not matter to what they cover together or
/// have in common, and a rectangle has itself in common with its bounding box.
pub proof fn law_union_and_crop_are_symmetric(a: Rect, b: Rect)
    ensures
        a.spec_union(b) == b.spec_union(a),
        a.spec_crop(b) == b.spec_crop(a),
        a.spec_crop(a.spec_union(b)) == a,
        a.spec_union(a) == a,
{
}

/// How wide and tall a rectangle is tells how far its edges are apart.
pub proof fn law_extents_span_the_edges(rect: Rect)
    ensures
        rect.left + rect.spec_width() == rect.right,
        rect.top + rect.spec_height() == rect.bottom,
        rect.measurable() <==> i32::MIN <= rect.right - rect.left <= i32::MAX && i32::MIN
            <= rect.bottom - rect.top <= i32::MAX,
{
}

} // verus!
