//! Integer geometry in device pixels.
//!
//! Rectangles are half-open boxes `[x0, x1) x [y0, y1)`. A box whose upper
//! corner does not lie strictly beyond its lower corner covers no pixel.

use vstd::prelude::*;

verus! {

/// A point in device pixels.
#[derive(Clone, Copy, Debug, PartialEq, Eq, Structural)]
pub struct DevicePoint {
    pub x: i32,
    pub y: i32,
}

impl DevicePoint {
    pub fn new(x: i32, y: i32) -> (p: DevicePoint)
        ensures
            p.x == x,
            p.y == y,
    {
        DevicePoint { x, y }
    }

    pub fn zero() -> (p: DevicePoint)
        ensures
            p.x == 0,
            p.y == 0,
    {
        DevicePoint { x: 0, y: 0 }
    }
}

/// A size in device pixels.
#[derive(Clone, Copy, Debug, PartialEq, Eq, Structural)]
pub struct DeviceSize {
    pub width: u32,
    pub height: u32,
}

impl DeviceSize {
    pub fn new(width: u32, height: u32) -> (s: DeviceSize)
        ensures
            s.width == width,
            s.height == height,
    {
        DeviceSize { width, height }
    }

    /// Number of pixels covered.
    pub open spec fn area(self) -> int {
        self.width as int * self.height as int
    }
}

/// The value `v` brought into the range of `i32`.
pub open spec fn clamp_to_i32(v: int) -> int {
    if v < i32::MIN as int {
        i32::MIN as int
    } else if v > i32::MAX as int {
        i32::MAX as int
    } else {
        v
    }
}

/// Adds two coordinates; a sum outside `i32` is brought to the nearest bound.
pub fn clamped_add(a: i32, b: i32) -> (r: i32)
    ensures
        r as int == clamp_to_i32(a as int + b as int),
{
    let wide: i64 = a as i64 + b as i64;
    if wide < i32::MIN as i64 {
        i32::MIN
    } else if wide > i32::MAX as i64 {
        i32::MAX
    } else {
        wide as i32
    }
}

/// A half-open axis-aligned box in device pixels.
#[derive(Clone, Copy, Debug, PartialEq, Eq, Structural)]
pub struct DeviceRect {
    pub x0: i32,
    pub y0: i32,
    pub x1: i32,
    pub y1: i32,
}

impl DeviceRect {
    /// The pixel `(px, py)` lies inside the box.
    pub open spec fn contains(self, px: int, py: int) -> bool {
        self.x0 <= px < self.x1 && self.y0 <= py < self.y1
    }

    /// The box covers no pixel.
    pub open spec fn spec_is_empty(self) -> bool {
        self.x1 <= self.x0 || self.y1 <= self.y0
    }

    /// The two boxes share a pixel.
    pub open spec fn spec_intersects(self, other: DeviceRect) -> bool {
        &&& self.x0 < other.x1
        &&& other.x0 < self.x1
        &&& self.y0 < other.y1
        &&& other.y0 < self.y1
        &&& !self.spec_is_empty()
        &&& !other.spec_is_empty()
    }

    /// The box of the pixels that lie in both boxes.
    pub open spec fn spec_intersection(self, other: DeviceRect) -> DeviceRect {
        DeviceRect {
            x0: if self.x0 >= other.x0 { self.x0 } else { other.x0 },
            y0: if self.y0 >= other.y0 { self.y0 } else { other.y0 },
            x1: if self.x1 <= other.x1 { self.x1 } else { other.x1 },
            y1: if self.y1 <= other.y1 { self.y1 } else { other.y1 },
        }
    }

    /// Every pixel of `other` lies in `self`.
    pub open spec fn spec_contains_rect(self, other: DeviceRect) -> bool {
        other.spec_is_empty() || (self.x0 <= other.x0 && other.x1 <= self.x1 && self.y0 <= other.y0
            && other.y1 <= self.y1)
    }

    /// The box moved by `(dx, dy)`, each corner clamped to `i32`.
    pub open spec fn spec_translate(self, dx: int, dy: int) -> DeviceRect {
        DeviceRect {
            x0: clamp_to_i32(self.x0 + dx) as i32,
            y0: clamp_to_i32(self.y0 + dy) as i32,
            x1: clamp_to_i32(self.x1 + dx) as i32,
            y1: clamp_to_i32(self.y1 + dy) as i32,
        }
    }

    pub open spec fn spec_width(self) -> int {
        if self.x1 > self.x0 {
            self.x1 - self.x0
        } else {
            0
        }
    }

    pub open spec fn spec_height(self) -> int {
        if self.y1 > self.y0 {
            self.y1 - self.y0
        } else {
            0
        }
    }

    pub fn new(x0: i32, y0: i32, x1: i32, y1: i32) -> (r: DeviceRect)
        ensures
            r == (DeviceRect { x0, y0, x1, y1 }),
    {
        DeviceRect { x0, y0, x1, y1 }
    }

    /// The box with its lower corner at `origin` and the given extent; the
    /// upper corner is clamped to `i32`.
    pub fn from_origin_size(origin: DevicePoint, size: DeviceSize) -> (r: DeviceRect)
        ensures
            r.x0 == origin.x,
            r.y0 == origin.y,
            r.x1 as int == clamp_to_i32(origin.x as int + size.width as int),
            r.y1 as int == clamp_to_i32(origin.y as int + size.height as int),
    {
        let x1: i64 = origin.x as i64 + size.width as i64;
        let y1: i64 = origin.y as i64 + size.height as i64;
        DeviceRect {
            x0: origin.x,
            y0: origin.y,
            x1: if x1 > i32::MAX as i64 { i32::MAX } else { x1 as i32 },
            y1: if y1 > i32::MAX as i64 { i32::MAX } else { y1 as i32 },
        }
    }

    pub fn zero() -> (r: DeviceRect)
        ensures
            r == (DeviceRect { x0: 0, y0: 0, x1: 0, y1: 0 }),
            r.spec_is_empty(),
    {
        DeviceRect { x0: 0, y0: 0, x1: 0, y1: 0 }
    }

    pub fn is_empty(&self) -> (b: bool)
        ensures
            b == self.spec_is_empty(),
    {
        self.x1 <= self.x0 || self.y1 <= self.y0
    }

    pub fn width(&self) -> (w: u32)
        ensures
            w as int == self.spec_width(),
    {
        if self.x1 > self.x0 {
            (self.x1 as i64 - self.x0 as i64) as u32
        } else {
            0
        }
    }

    pub fn height(&self) -> (h: u32)
        ensures
            h as int == self.spec_height(),
    {
        if self.y1 > self.y0 {
            (self.y1 as i64 - self.y0 as i64) as u32
        } else {
            0
        }
    }

    pub fn intersects(&self, other: &DeviceRect) -> (b: bool)
        ensures
            b == self.spec_intersects(*other),
    {
        self.x0 < other.x1 && other.x0 < self.x1 && self.y0 < other.y1 && other.y0 < self.y1
            && !self.is_empty() && !other.is_empty()
    }

    pub fn intersection(&self, other: &DeviceRect) -> (r: DeviceRect)
        ensures
            r == self.spec_intersection(*other),
    {
        DeviceRect {
            x0: if self.x0 >= other.x0 { self.x0 } else { other.x0 },
            y0: if self.y0 >= other.y0 { self.y0 } else { other.y0 },
            x1: if self.x1 <= other.x1 { self.x1 } else { other.x1 },
            y1: if self.y1 <= other.y1 { self.y1 } else { other.y1 },
        }
    }

    pub fn contains_rect(&self, other: &DeviceRect) -> (b: bool)
        ensures
            b == self.spec_contains_rect(*other),
    {
        other.is_empty() || (self.x0 <= other.x0 && other.x1 <= self.x1 && self.y0 <= other.y0
            && other.y1 <= self.y1)
    }

    pub fn translate(&self, offset: DevicePoint) -> (r: DeviceRect)
        ensures
            r == self.spec_translate(offset.x as int, offset.y as int),
    {
        DeviceRect {
            x0: clamped_add(self.x0, offset.x),
            y0: clamped_add(self.y0, offset.y),
            x1: clamped_add(self.x1, offset.x),
            y1: clamped_add(self.y1, offset.y),
        }
    }
}

/// A pixel lies in the intersection of two boxes exactly when it lies in both.
pub proof fn lemma_intersection_is_common_pixels(a: DeviceRect, b: DeviceRect, px: int, py: int)
    ensures
        a.spec_intersection(b).contains(px, py) <==> (a.contains(px, py) && b.contains(px, py)),
{
}

/// Two boxes intersect exactly when their intersection covers a pixel.
pub proof fn lemma_intersects_iff_intersection_nonempty(a: DeviceRect, b: DeviceRect)
    ensures
        a.spec_intersects(b) <==> !a.spec_intersection(b).spec_is_empty(),
{
}

/// A box is empty exactly when it contains none of its candidate pixels; the
/// lower corner is the witness for a box that is not.
pub proof fn lemma_empty_has_no_pixel(a: DeviceRect, px: int, py: int)
    ensures
        a.spec_is_empty() ==> !a.contains(px, py),
        !a.spec_is_empty() ==> a.contains(a.x0 as int, a.y0 as int),
{
}

/// A box inside another that is disjoint from a third is disjoint from it too.
pub proof fn lemma_contained_keeps_disjoint(outer: DeviceRect, inner: DeviceRect, c: DeviceRect)
    requires
        outer.spec_contains_rect(inner),
        !outer.spec_intersects(c),
    ensures
        !inner.spec_intersects(c),
{
}

/// Moving a box, where no corner leaves `i32`, moves each of its pixels.
pub proof fn lemma_translate_moves_pixels(a: DeviceRect, dx: int, dy: int, px: int, py: int)
    requires
        i32::MIN <= a.x0 + dx <= i32::MAX,
        i32::MIN <= a.x1 + dx <= i32::MAX,
        i32::MIN <= a.y0 + dy <= i32::MAX,
        i32::MIN <= a.y1 + dy <= i32::MAX,
    ensures
        a.spec_translate(dx, dy).contains(px + dx, py + dy) <==> a.contains(px, py),
{
}

} // verus!
