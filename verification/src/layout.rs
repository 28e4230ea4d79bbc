//! Screen layout: the fixed editor panel and the canvas and arena
//! rectangles, recomputed from the live screen width every call so that the
//! rendering adapts to window resizes without explicit resize events.

use vstd::prelude::*;

use crate::geometry::{
    Pos, Rect, UNIT, COORD_LIMIT, pos_in_range, rect_in_range, spec_to_rect, spec_to_normalized,
    spec_contains, normalized_to_rect, rect_to_normalized,
};

verus! {

/// Outer padding of the screen layout, in pixels.
pub const PAD: u64 = 20;

/// Height of one line of text, in pixels.
pub const FONT_SIZE: u64 = 16;

/// Narrowest screen the layout arithmetic accepts.
pub const MIN_SCREEN: u64 = 300;

/// Widest screen the layout arithmetic accepts (a machine limit keeping the
/// pixel products inside the coordinate maps' range).
pub const MAX_SCREEN: u64 = 100_000_000;

/// The fixed editor panel: a square under one line of heading text.
pub open spec fn spec_editor_rect() -> Rect {
    (Rect { x: PAD as u64, y: (PAD + FONT_SIZE * 2) as u64, w: 200, h: 200 })
}

/// The fixed editor panel.
pub fn editor_rect() -> (r: Rect)
    ensures
        r == spec_editor_rect(),
        rect_in_range(r),
{
    Rect { x: PAD, y: PAD + FONT_SIZE * 2, w: 200, h: 200 }
}

/// The canvas rectangle for a given screen width: right of the editor,
/// scaled with the window.
pub open spec fn spec_canvas_rect(screen_width: u64) -> Rect {
    (Rect {
        x: (57 * screen_width / 100) as u64,
        y: (28 * screen_width / 100) as u64,
        w: (3 * (screen_width - 280) / 10) as u64,
        h: (3 * (screen_width - 280) / 10) as u64,
    })
}

/// Computes the canvas rectangle from the live screen width.
pub fn canvas_rect(screen_width: u64) -> (r: Rect)
    requires
        MIN_SCREEN <= screen_width <= MAX_SCREEN,
    ensures
        r == spec_canvas_rect(screen_width),
        rect_in_range(r),
{
    let side = 3 * (screen_width - 280) / 10;
    let r = Rect { x: 57 * screen_width / 100, y: 28 * screen_width / 100, w: side, h: side };
    proof {
        assert(r.w >= 6 && r.x + r.w <= COORD_LIMIT && r.y + r.h <= COORD_LIMIT)
            by (nonlinear_arith)
            requires
                r.x == 57 * screen_width / 100,
                r.y == 28 * screen_width / 100,
                r.w == 3 * (screen_width - 280) / 10,
                r.h == r.w,
                300 <= screen_width <= 100_000_000,
                COORD_LIMIT == 1_000_000_000,
        ;
    }
    r
}

/// The arena rectangle for a given screen width: the normalized arena
/// `[0, 0.3] x [0, 0.3]` pushed through the canvas map — its origin mapped
/// and squeezed left, its size mapped through the same affine rule (offsets
/// included, as the layout has always done).
pub open spec fn spec_arena_rect(screen_width: u64) -> Rect {
    let c = spec_canvas_rect(screen_width);
    let origin = spec_to_rect(Pos { x: 0, y: 0 }, c);
    let size = spec_to_rect(Pos { x: 300, y: 300 }, c);
    (Rect { x: (origin.x * 6 / 10) as u64, y: origin.y, w: size.x, h: size.y })
}

/// Computes the arena rectangle from the live screen width.
pub fn calculate_arena(screen_width: u64) -> (r: Rect)
    requires
        MIN_SCREEN <= screen_width <= MAX_SCREEN,
    ensures
        r == spec_arena_rect(screen_width),
        rect_in_range(r),
{
    let c = canvas_rect(screen_width);
    let origin = normalized_to_rect(Pos { x: 0, y: 0 }, c);
    let size = normalized_to_rect(Pos { x: 300, y: 300 }, c);
    let r = Rect { x: origin.x * 6 / 10, y: origin.y, w: size.x, h: size.y };
    proof {
        let sw = screen_width as int;
        assert(origin.x == 57 * sw / 100 && origin.y == 28 * sw / 100);
        assert(size.x == 300 * c.w / (UNIT as int) + c.x && size.y == 300 * c.h / (UNIT as int)
            + c.y);
        assert(300 * c.w / (UNIT as int) <= c.w && 0 <= 300 * c.w / (UNIT as int))
            by (nonlinear_arith)
            requires
                0 < c.w,
                UNIT == 1000,
        ;
        assert(r.w > 0 && r.h > 0 && r.x + r.w <= COORD_LIMIT && r.y + r.h <= COORD_LIMIT)
            by (nonlinear_arith)
            requires
                r.x == origin.x * 6 / 10,
                r.w == size.x,
                r.h == size.y,
                r.y == origin.y,
                origin.x == 57 * sw / 100,
                origin.y == 28 * sw / 100,
                size.x <= c.w + c.x,
                size.y <= c.h + c.y,
                size.x >= c.x,
                size.y >= c.y,
                c.x == 57 * sw / 100,
                c.y == 28 * sw / 100,
                c.w == 3 * (sw - 280) / 10,
                c.h == c.w,
                c.x >= 1,
                c.y >= 1,
                300 <= sw <= 100_000_000,
                COORD_LIMIT == 1_000_000_000,
        ;
    }
    r
}

/// Maps a normalized position to its editor-panel pixel position.
pub fn normalized_to_editor_absolute(pos: Pos) -> (q: Pos)
    requires
        pos_in_range(pos),
    ensures
        q == spec_to_rect(pos, spec_editor_rect()),
{
    normalized_to_rect(pos, editor_rect())
}

/// Maps an editor-panel pixel position back to normalized space.
pub fn editor_absolute_to_normalized(pos: Pos) -> (q: Pos)
    requires
        spec_contains(spec_editor_rect(), pos),
    ensures
        q == spec_to_normalized(pos, spec_editor_rect()),
{
    rect_to_normalized(pos, editor_rect())
}

/// Maps a normalized position into canvas pixel space for the live screen
/// width.
pub fn normalized_to_canvas_absolute(pos: Pos, screen_width: u64) -> (q: Pos)
    requires
        pos_in_range(pos),
        MIN_SCREEN <= screen_width <= MAX_SCREEN,
    ensures
        q == spec_to_rect(pos, spec_canvas_rect(screen_width)),
{
    normalized_to_rect(pos, canvas_rect(screen_width))
}

} // verus!
