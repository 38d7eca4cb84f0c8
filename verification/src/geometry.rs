//! Whole-pixel points and half-open axis-aligned boxes.
//!
//! A box stands for the set of pixels `(x, y)` with `min.x <= x < max.x` and
//! `min.y <= y < max.y`. Every operation is specified both by its
//! coordinates and by what it means for that set of pixels.

use vstd::prelude::*;

verus! {

/// A pixel position.
#[derive(Clone, Copy, Debug, PartialEq, Eq, Structural)]
pub struct Point2D {
    pub x: i32,
    pub y: i32,
}

/// A half-open box of pixels: `min` is inside, `max` is just outside.
#[derive(Clone, Copy, Debug, PartialEq, Eq, Structural)]
pub struct Box2D {
    pub min: Point2D,
    pub max: Point2D,
}

/// A point of a polygon, in the coordinate space of the image that owns it.
pub type LayoutPoint = Point2D;

/// The bounds of a draw command, in the coordinate space of its image.
pub type LayoutRect = Box2D;

/// A rectangle in device pixels.
pub type DeviceIntRect = Box2D;

/// The part of an image that changed since it was last rasterized.
#[derive(Clone, Copy, Debug, PartialEq, Eq, Structural)]
pub enum DirtyRect {
    /// Everything changed.
    All,
    /// Only the pixels of this box changed.
    Partial(Box2D),
}

/// The dirty region of a blob image.
pub type BlobDirtyRect = DirtyRect;

impl Point2D {
    /// The point `(x, y)`.
    pub fn new(x: i32, y: i32) -> (p: Point2D)
        ensures
            p.x == x,
            p.y == y,
    {
        Point2D { x, y }
    }
}

impl Box2D {
    /// Whether the pixel `(x, y)` belongs to the box.
    pub open spec fn contains(self, x: int, y: int) -> bool {
        self.min.x <= x < self.max.x && self.min.y <= y < self.max.y
    }

    /// Whether the box holds no pixel.
    pub open spec fn spec_is_empty(&self) -> bool {
        !(self.max.x > self.min.x && self.max.y > self.min.y)
    }

    /// The number of pixel columns; negative for a box turned inside out.
    pub open spec fn spec_width(&self) -> int {
        self.max.x - self.min.x
    }

    /// The number of pixel rows; negative for a box turned inside out.
    pub open spec fn spec_height(&self) -> int {
        self.max.y - self.min.y
    }

    /// The box between the greater of the `min` corners and the lesser of
    /// the `max` corners: the pixels of both boxes.
    pub open spec fn spec_intersection_unchecked(&self, other: &Box2D) -> Box2D {
        Box2D {
            min: Point2D {
                x: if self.min.x >= other.min.x { self.min.x } else { other.min.x },
                y: if self.min.y >= other.min.y { self.min.y } else { other.min.y },
            },
            max: Point2D {
                x: if self.max.x <= other.max.x { self.max.x } else { other.max.x },
                y: if self.max.y <= other.max.y { self.max.y } else { other.max.y },
            },
        }
    }

    /// Whether every pixel of `other` is a pixel of `self`.
    pub open spec fn spec_contains_box(&self, other: &Box2D) -> bool {
        forall|x: int, y: int| #[trigger] other.contains(x, y) ==> self.contains(x, y)
    }

    /// The box moved so that `origin` becomes `(0, 0)`.
    pub open spec fn spec_relative_to(&self, origin: &Point2D) -> Box2D
        recommends
            i32::MIN <= self.min.x - origin.x <= i32::MAX,
            i32::MIN <= self.min.y - origin.y <= i32::MAX,
            i32::MIN <= self.max.x - origin.x <= i32::MAX,
            i32::MIN <= self.max.y - origin.y <= i32::MAX,
    {
        Box2D {
            min: Point2D {
                x: (self.min.x - origin.x) as i32,
                y: (self.min.y - origin.y) as i32,
            },
            max: Point2D {
                x: (self.max.x - origin.x) as i32,
                y: (self.max.y - origin.y) as i32,
            },
        }
    }

    /// The empty box at the origin.
    pub open spec fn spec_zero() -> Box2D {
        Box2D { min: Point2D { x: 0, y: 0 }, max: Point2D { x: 0, y: 0 } }
    }

    /// The box from `min` to `max`.
    pub fn new(min: Point2D, max: Point2D) -> (b: Box2D)
        ensures
            b.min == min,
            b.max == max,
    {
        Box2D { min, max }
    }

    /// The box from `(min_x, min_y)` to `(max_x, max_y)`.
    pub fn from_coords(min_x: i32, min_y: i32, max_x: i32, max_y: i32) -> (b: Box2D)
        ensures
            b == (Box2D { min: Point2D { x: min_x, y: min_y }, max: Point2D { x: max_x, y: max_y } }),
    {
        Box2D { min: Point2D { x: min_x, y: min_y }, max: Point2D { x: max_x, y: max_y } }
    }

    /// The empty box at the origin.
    #[verifier::when_used_as_spec(spec_zero)]
    pub fn zero() -> (b: Box2D)
        ensures
            b == Box2D::spec_zero(),
            b.spec_is_empty(),
    {
        Box2D { min: Point2D { x: 0, y: 0 }, max: Point2D { x: 0, y: 0 } }
    }

    /// True when the box holds no pixel.
    #[verifier::when_used_as_spec(spec_is_empty)]
    pub fn is_empty(&self) -> (empty: bool)
        ensures
            empty == self.spec_is_empty(),
            empty <==> forall|x: int, y: int| !self.contains(x, y),
    {
        proof {
            if self.max.x > self.min.x && self.max.y > self.min.y {
                assert(self.contains(self.min.x as int, self.min.y as int));
            }
        }
        !(self.max.x > self.min.x && self.max.y > self.min.y)
    }

    /// The number of pixel columns; negative for a box turned inside out.
    pub fn width(&self) -> (w: i64)
        ensures
            w == self.spec_width(),
    {
        self.max.x as i64 - self.min.x as i64
    }

    /// The number of pixel rows; negative for a box turned inside out.
    pub fn height(&self) -> (h: i64)
        ensures
            h == self.spec_height(),
    {
        self.max.y as i64 - self.min.y as i64
    }

    /// The pixels that belong to both boxes. Where the boxes do not meet the
    /// result is turned inside out, hence empty.
    #[verifier::when_used_as_spec(spec_intersection_unchecked)]
    pub fn intersection_unchecked(&self, other: &Box2D) -> (b: Box2D)
        ensures
            b == self.spec_intersection_unchecked(other),
            forall|x: int, y: int|
                #[trigger] b.contains(x, y) <==> self.contains(x, y) && other.contains(x, y),
    {
        Box2D {
            min: Point2D {
                x: if self.min.x >= other.min.x { self.min.x } else { other.min.x },
                y: if self.min.y >= other.min.y { self.min.y } else { other.min.y },
            },
            max: Point2D {
                x: if self.max.x <= other.max.x { self.max.x } else { other.max.x },
                y: if self.max.y <= other.max.y { self.max.y } else { other.max.y },
            },
        }
    }

    /// The pixels that belong to both boxes, or `None` where there are none.
    pub fn intersection(&self, other: &Box2D) -> (r: Option<Box2D>)
        ensures
            match r {
                Some(b) => b == self.spec_intersection_unchecked(other) && !b.spec_is_empty(),
                None => self.spec_intersection_unchecked(other).spec_is_empty(),
            },
    {
        let b = self.intersection_unchecked(other);
        if b.is_empty() {
            None
        } else {
            Some(b)
        }
    }

    /// True when every pixel of `other` is a pixel of `self`; so always for
    /// an empty `other`.
    #[verifier::when_used_as_spec(spec_contains_box)]
    pub fn contains_box(&self, other: &Box2D) -> (inside: bool)
        ensures
            inside == self.spec_contains_box(other),
            inside == (other.spec_is_empty() || (self.min.x <= other.min.x && other.max.x
                <= self.max.x && self.min.y <= other.min.y && other.max.y <= self.max.y)),
    {
        proof {
            lemma_contains_box_by_corners(*self, *other);
        }
        other.is_empty() || (self.min.x <= other.min.x && other.max.x <= self.max.x && self.min.y
            <= other.min.y && other.max.y <= self.max.y)
    }

    /// The box as seen from `origin`: each coordinate less the origin's.
    pub fn relative_to(&self, origin: &Point2D) -> (b: Box2D)
        requires
            i32::MIN <= self.min.x - origin.x <= i32::MAX,
            i32::MIN <= self.min.y - origin.y <= i32::MAX,
            i32::MIN <= self.max.x - origin.x <= i32::MAX,
            i32::MIN <= self.max.y - origin.y <= i32::MAX,
        ensures
            b == self.spec_relative_to(origin),
            forall|x: int, y: int|
                #[trigger] b.contains(x, y) <==> self.contains(x + origin.x, y + origin.y),
    {
        Box2D {
            min: Point2D { x: self.min.x - origin.x, y: self.min.y - origin.y },
            max: Point2D { x: self.max.x - origin.x, y: self.max.y - origin.y },
        }
    }
}

impl DirtyRect {
    /// Whether the pixel `(x, y)` is dirty.
    pub open spec fn contains(self, x: int, y: int) -> bool {
        match self {
            DirtyRect::All => true,
            DirtyRect::Partial(b) => b.contains(x, y),
        }
    }

    /// Whether every pixel of `rect` is dirty.
    pub open spec fn spec_contains_box(&self, rect: &Box2D) -> bool {
        forall|x: int, y: int| #[trigger] rect.contains(x, y) ==> self.contains(x, y)
    }

    /// The dirty pixels of `rect`, as an inside-out box where there are none.
    pub open spec fn spec_clip(&self, rect: &Box2D) -> Box2D {
        match self {
            DirtyRect::All => *rect,
            DirtyRect::Partial(b) => rect.spec_intersection_unchecked(b),
        }
    }

    /// True when every pixel of `rect` is dirty.
    #[verifier::when_used_as_spec(spec_contains_box)]
    pub fn contains_box(&self, rect: &Box2D) -> (inside: bool)
        ensures
            inside == self.spec_contains_box(rect),
    {
        match self {
            DirtyRect::All => true,
            DirtyRect::Partial(b) => b.contains_box(rect),
        }
    }

    /// The dirty pixels of `rect`.
    #[verifier::when_used_as_spec(spec_clip)]
    pub fn clip(&self, rect: &Box2D) -> (b: Box2D)
        ensures
            b == self.spec_clip(rect),
            forall|x: int, y: int|
                #[trigger] b.contains(x, y) <==> rect.contains(x, y) && self.contains(x, y),
    {
        match self {
            DirtyRect::All => *rect,
            DirtyRect::Partial(b) => rect.intersection_unchecked(b),
        }
    }
}

/// A box holds another one exactly when the other is empty or lies between
/// its corners.
pub proof fn lemma_contains_box_by_corners(outer: Box2D, inner: Box2D)
    ensures
        outer.spec_contains_box(&inner) <==> (inner.spec_is_empty() || (outer.min.x <= inner.min.x
            && inner.max.x <= outer.max.x && outer.min.y <= inner.min.y && inner.max.y
            <= outer.max.y)),
{
    if outer.spec_contains_box(&inner) && !inner.spec_is_empty() {
        assert(inner.contains(inner.min.x as int, inner.min.y as int));
        assert(inner.contains(inner.max.x - 1, inner.max.y - 1));
    }
}

} // verus!
