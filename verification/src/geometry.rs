//! Fixed-point coordinate spaces and the maps between them.
//!
//! Three spaces appear in the library: normalized unit space (one unit is
//! `UNIT` ticks, so the unit square is `[0, UNIT] x [0, UNIT]`), editor-panel
//! pixel space and canvas pixel space.  All coordinates are nonnegative
//! integers; a normalized coordinate may exceed `UNIT` (a point is tolerated
//! out of range), but the maps require the bounds below so that the
//! intermediate products stay inside `u64`.

use vstd::prelude::*;

verus! {

/// Number of fixed-point ticks in one normalized unit.
pub const UNIT: u64 = 1000;

/// Upper bound on any coordinate handed to the coordinate maps.
pub const COORD_LIMIT: u64 = 1_000_000_000;

/// A position: a pair of fixed-point coordinates.
#[derive(Clone, Copy, PartialEq, Eq, Structural, Debug)]
pub struct Pos {
    pub x: u64,
    pub y: u64,
}

/// An axis-aligned rectangle given by its origin and size.
#[derive(Clone, Copy, PartialEq, Eq, Structural, Debug)]
pub struct Rect {
    pub x: u64,
    pub y: u64,
    pub w: u64,
    pub h: u64,
}

/// Both coordinates lie under the overflow bound.
pub open spec fn pos_in_range(p: Pos) -> bool {
    p.x <= COORD_LIMIT && p.y <= COORD_LIMIT
}

/// The rectangle has positive sides and lies, far edges included, under the
/// overflow bound: every position it contains is in range.
pub open spec fn rect_in_range(r: Rect) -> bool {
    0 < r.w && 0 < r.h && r.x + r.w <= COORD_LIMIT && r.y + r.h <= COORD_LIMIT
}

/// The affine map from normalized space into a rectangle:
/// `unit * rect.size / UNIT + rect.origin`, component-wise.
pub open spec fn spec_to_rect(p: Pos, r: Rect) -> Pos {
    (Pos { x: (p.x * r.w / (UNIT as int) + r.x) as u64, y: (p.y * r.h / (UNIT as int) + r.y) as u64 })
}

/// The inverse affine map, out of a rectangle into normalized space:
/// `(pixel - rect.origin) * UNIT / rect.size`, component-wise.
pub open spec fn spec_to_normalized(p: Pos, r: Rect) -> Pos {
    (Pos {
        x: ((p.x - r.x) * UNIT / (r.w as int)) as u64,
        y: ((p.y - r.y) * UNIT / (r.h as int)) as u64,
    })
}

/// The rectangle contains the position (origin inclusive, far edge exclusive).
pub open spec fn spec_contains(r: Rect, p: Pos) -> bool {
    r.x <= p.x < r.x + r.w && r.y <= p.y < r.y + r.h
}

/// Maps a normalized position into a rectangle's pixel space.
pub fn normalized_to_rect(p: Pos, r: Rect) -> (q: Pos)
    requires
        pos_in_range(p),
        rect_in_range(r),
    ensures
        q == spec_to_rect(p, r),
{
    proof {
        assert(p.x * r.w <= COORD_LIMIT * COORD_LIMIT && p.y * r.h <= COORD_LIMIT * COORD_LIMIT)
            by (nonlinear_arith)
            requires
                p.x <= COORD_LIMIT,
                p.y <= COORD_LIMIT,
                r.w <= COORD_LIMIT,
                r.h <= COORD_LIMIT,
        ;
    }
    Pos { x: p.x * r.w / UNIT + r.x, y: p.y * r.h / UNIT + r.y }
}

/// Maps a pixel position inside a rectangle back to normalized space.
pub fn rect_to_normalized(p: Pos, r: Rect) -> (q: Pos)
    requires
        pos_in_range(p),
        rect_in_range(r),
        r.x <= p.x,
        r.y <= p.y,
    ensures
        q == spec_to_normalized(p, r),
{
    proof {
        assert((p.x - r.x) * UNIT <= COORD_LIMIT * UNIT && (p.y - r.y) * UNIT <= COORD_LIMIT
            * UNIT) by (nonlinear_arith)
            requires
                r.x <= p.x <= COORD_LIMIT,
                r.y <= p.y <= COORD_LIMIT,
        ;
    }
    Pos { x: (p.x - r.x) * UNIT / r.w, y: (p.y - r.y) * UNIT / r.h }
}

/// Axis-aligned containment test against a rectangle.
pub fn rect_contains(r: Rect, p: Pos) -> (b: bool)
    requires
        rect_in_range(r),
    ensures
        b == spec_contains(r, p),
{
    r.x <= p.x && p.x < r.x + r.w && r.y <= p.y && p.y < r.y + r.h
}

} // verus!
