//! Axis-aligned boxes, the rectangular regions that hold them, and the
//! overlap and clamping rules between the two.

use vstd::prelude::*;

verus! {

/// Number of sub-pixel units in one pixel.
pub const SUBPIXELS: i64 = 100;

/// Largest distance of an entity's centre from the origin, on each axis.
pub const POS_LIMIT: i64 = 2_305_843_009_213_693_952;

/// Largest distance of a region's edges from the origin, on each axis.
pub const REGION_LIMIT: i64 = 1_152_921_504_606_846_976;

/// Largest half-extent of an entity, on each axis.
pub const EXTENT_LIMIT: i64 = 1_099_511_627_776;

/// Centre position, drawing order and half-extents of an entity.
#[derive(Clone, Copy, Debug, PartialEq, Eq, Structural)]
pub struct Transform {
    pub x: i64,
    pub y: i64,
    pub z: i64,
    pub half_w: i64,
    pub half_h: i64,
}

/// An axis-aligned rectangle given by its lower-left corner and its size.
#[derive(Clone, Copy, Debug, PartialEq, Eq, Structural)]
pub struct Region {
    pub x: i64,
    pub y: i64,
    pub width: i64,
    pub height: i64,
}

impl Transform {
    /// The extent is positive and bounded, the centre within the position limits.
    pub open spec fn wf(self) -> bool {
        &&& 0 < self.half_w <= EXTENT_LIMIT
        &&& 0 < self.half_h <= EXTENT_LIMIT
        &&& -POS_LIMIT <= self.x <= POS_LIMIT
        &&& -POS_LIMIT <= self.y <= POS_LIMIT
    }

    pub open spec fn left(self) -> int {
        self.x - self.half_w
    }

    pub open spec fn right(self) -> int {
        self.x + self.half_w
    }

    pub open spec fn bottom(self) -> int {
        self.y - self.half_h
    }

    pub open spec fn top(self) -> int {
        self.y + self.half_h
    }
}

impl Region {
    /// Non-negative size, every edge within the region limits.
    pub open spec fn wf(self) -> bool {
        &&& 0 <= self.width
        &&& 0 <= self.height
        &&& -REGION_LIMIT <= self.x
        &&& -REGION_LIMIT <= self.y
        &&& self.x + self.width <= REGION_LIMIT
        &&& self.y + self.height <= REGION_LIMIT
    }

    /// The box fits inside the region along both axes.
    pub open spec fn can_hold(self, t: Transform) -> bool {
        &&& 2 * t.half_w <= self.width
        &&& 2 * t.half_h <= self.height
    }

    /// Every edge of the box lies within the region, edges included.
    pub open spec fn contains(self, t: Transform) -> bool {
        &&& self.x <= t.left()
        &&& t.right() <= self.x + self.width
        &&& self.y <= t.bottom()
        &&& t.top() <= self.y + self.height
    }
}

/// Two boxes overlap when their projections overlap on both axes;
/// touching edges count as overlap.
pub open spec fn overlaps(a: Transform, b: Transform) -> bool {
    &&& a.right() >= b.left()
    &&& b.right() >= a.left()
    &&& a.top() >= b.bottom()
    &&& b.top() >= a.bottom()
}

/// Position on one axis after the clamp: a box edge that passes the
/// upper edge of the span is snapped to it, else one that passes its lower
/// edge is snapped to that.
pub open spec fn clamp_axis_spec(pos: int, half: int, lo: int, len: int) -> int {
    if pos + half > lo + len {
        lo + len - half
    } else if pos - half < lo {
        lo + half
    } else {
        pos
    }
}

/// The box moved back into the region, one axis at a time.
pub open spec fn clamp_spec(t: Transform, r: Region) -> Transform {
    Transform {
        x: clamp_axis_spec(t.x as int, t.half_w as int, r.x as int, r.width as int) as i64,
        y: clamp_axis_spec(t.y as int, t.half_h as int, r.y as int, r.height as int) as i64,
        ..t
    }
}

/// AABB overlap test of two boxes.
pub fn rect_to_rect_collision(a: &Transform, b: &Transform) -> (r: bool)
    requires
        a.wf(),
        b.wf(),
    ensures
        r == overlaps(*a, *b),
{
    let collision_x = a.x + a.half_w >= b.x - b.half_w && b.x + b.half_w >= a.x - a.half_w;
    let collision_y = a.y + a.half_h >= b.y - b.half_h && b.y + b.half_h >= a.y - a.half_h;
    collision_x && collision_y
}

fn clamp_axis(pos: i64, half: i64, lo: i64, len: i64) -> (r: i64)
    requires
        -POS_LIMIT <= pos <= POS_LIMIT,
        0 < half <= EXTENT_LIMIT,
        -REGION_LIMIT <= lo,
        0 <= len,
        lo + len <= REGION_LIMIT,
    ensures
        r == clamp_axis_spec(pos as int, half as int, lo as int, len as int),
        -POS_LIMIT <= r <= POS_LIMIT,
{
    if pos + half > lo + len {
        lo + len - half
    } else if pos - half < lo {
        lo + half
    } else {
        pos
    }
}

/// Snaps the box back into the region wherever one of its edges has left it.
pub fn lock_to_region(t: &Transform, r: &Region) -> (out: Transform)
    requires
        t.wf(),
        r.wf(),
    ensures
        out == clamp_spec(*t, *r),
        out.wf(),
{
    Transform {
        x: clamp_axis(t.x, t.half_w, r.x, r.width),
        y: clamp_axis(t.y, t.half_h, r.y, r.height),
        ..*t
    }
}

/// The overlap test is symmetric: `overlaps(a, b) == overlaps(b, a)`.
pub proof fn lemma_overlap_symmetric(a: Transform, b: Transform)
    ensures
        overlaps(a, b) == overlaps(b, a),
{
}

/// After the clamp, a box that fits in its region lies inside it, and
/// clamping it once more leaves it where it is.
pub proof fn lemma_clamp_settles(t: Transform, r: Region)
    requires
        t.wf(),
        r.wf(),
        r.can_hold(t),
    ensures
        r.contains(clamp_spec(t, r)),
        clamp_spec(clamp_spec(t, r), r) == clamp_spec(t, r),
{
}

} // verus!
