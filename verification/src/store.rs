//! The point store and the editing controller.
//!
//! The store is the ordered collection of user-placed anchor points together
//! with the at-most-one selected index.  The editing controller turns one
//! pointer observation per frame (a button edge and the cursor position) into
//! store mutations: create, select, drag and delete.  Deletion swaps the last
//! element into the vacated slot, so the relative order of the other points
//! is deliberately not preserved — only the multiset of points is.

use vstd::prelude::*;

use crate::geometry::{
    Pos, Rect, UNIT, pos_in_range, rect_in_range, spec_contains, spec_to_normalized,
    rect_contains, rect_to_normalized,
};
use crate::render::{NORM_LIMIT, RADIUS_PX, anchors_in_range};

verus! {

/// Side, in pixels, of the square editor panel.
pub const EDITOR_SIZE: u64 = 200;

/// One pointer-button observation, as four disjoint edges.
#[derive(Clone, Copy, PartialEq, Eq, Structural, Debug)]
pub enum PointerEvent {
    /// The button went down this frame.
    Press,
    /// The button is down, and was already down.
    Held,
    /// The button went up this frame.
    Release,
    /// The button is up, and was already up.
    Idle,
}

/// A selection is either empty or a valid index into the points.
pub open spec fn selected_ok(selected: Option<usize>, points: Seq<Pos>) -> bool {
    match selected {
        Some(s) => s < points.len(),
        None => true,
    }
}

/// The squared distance between two positions, in normalized ticks.
pub open spec fn spec_dist2(a: Pos, b: Pos) -> int {
    (a.x - b.x) * (a.x - b.x) + (a.y - b.y) * (a.y - b.y)
}

/// The squared hit radius, in normalized ticks: the marker radius mapped
/// from editor-panel pixels into normalized space, squared.
pub open spec fn spec_hit_r2() -> int {
    let nr = RADIUS_PX as int * UNIT as int / EDITOR_SIZE as int;
    nr * nr
}

/// Does a cursor at `b` hit a point stored at `a`?
pub open spec fn spec_hits(a: Pos, b: Pos) -> bool {
    spec_dist2(a, b) < spec_hit_r2()
}

/// The first stored point, from index `j` on, that the cursor hits; ties are
/// resolved by storage order, not by distance.
pub open spec fn spec_first_hit_from(points: Seq<Pos>, p: Pos, j: int) -> Option<int>
    decreases points.len() - j,
{
    if j < 0 || j >= points.len() {
        None
    } else if spec_hits(points[j], p) {
        Some(j)
    } else {
        spec_first_hit_from(points, p, j + 1)
    }
}

/// The first stored point the cursor hits, if any.
pub open spec fn spec_first_hit(points: Seq<Pos>, p: Pos) -> Option<int> {
    spec_first_hit_from(points, p, 0)
}

/// The squared hit radius evaluates to a fixed positive constant.
pub proof fn lemma_hit_r2_value()
    ensures
        spec_hit_r2() == 2500,
{
    assert(RADIUS_PX as int * UNIT as int == 10000) by (nonlinear_arith)
        requires
            RADIUS_PX == 10,
            UNIT == 1000,
    ;
    let nr = RADIUS_PX as int * UNIT as int / EDITOR_SIZE as int;
    assert(nr == 50);
    assert(nr * nr == 2500) by (nonlinear_arith)
        requires
            nr == 50,
    ;
}

/// What the first hit means: the returned index is the least hit one, and
/// `None` means nothing is hit.
pub proof fn lemma_first_hit_characterization(points: Seq<Pos>, p: Pos, j: int)
    requires
        0 <= j <= points.len(),
    ensures
        match spec_first_hit_from(points, p, j) {
            Some(i) => j <= i < points.len() && spec_hits(points[i], p) && (forall|k: int|
                j <= k < i ==> !spec_hits(points[k], p)),
            None => forall|k: int| j <= k < points.len() ==> !spec_hits(points[k], p),
        },
    decreases points.len() - j,
{
    if j < points.len() && !spec_hits(points[j], p) {
        lemma_first_hit_characterization(points, p, j + 1);
    }
}

/// Hit-testing is reflexive: a cursor exactly at a stored point's position
/// always hits (its squared distance, zero, is under the squared radius), so
/// the store's first-hit search always finds some point there.
pub proof fn lemma_hit_reflexive(points: Seq<Pos>, i: int)
    requires
        0 <= i < points.len(),
    ensures
        spec_hits(points[i], points[i]),
        spec_first_hit(points, points[i]) is Some,
{
    lemma_hit_r2_value();
    assert(spec_dist2(points[i], points[i]) == 0);
    lemma_first_hit_characterization(points, points[i], 0);
    if spec_first_hit(points, points[i]) is None {
        assert(!spec_hits(points[i], points[i]));
    }
}

/// Finds the first stored point whose squared distance to `pos` is under the
/// squared hit radius — a deliberate linear scan in storage order, not a
/// nearest-point search.
pub fn inside_circle(pos: Pos, circles: &Vec<Pos>) -> (r: Option<usize>)
    requires
        anchors_in_range(circles@),
        pos_in_range(pos),
        pos.x <= NORM_LIMIT,
        pos.y <= NORM_LIMIT,
    ensures
        match r {
            Some(i) => spec_first_hit(circles@, pos) == Some(i as int),
            None => spec_first_hit(circles@, pos) is None,
        },
{
    proof {
        lemma_hit_r2_value();
        assert(RADIUS_PX * UNIT == 10000) by (nonlinear_arith)
            requires
                RADIUS_PX == 10,
                UNIT == 1000,
        ;
    }
    let nr = RADIUS_PX * UNIT / EDITOR_SIZE;
    assert(nr == 50);
    proof {
        assert(nr * nr == 2500) by (nonlinear_arith)
            requires
                nr == 50,
        ;
    }
    let radius_squared = nr * nr;
    let mut i: usize = 0;
    while i < circles.len()
        invariant
            anchors_in_range(circles@),
            pos.x <= NORM_LIMIT,
            pos.y <= NORM_LIMIT,
            radius_squared == spec_hit_r2(),
            i <= circles.len(),
            spec_first_hit(circles@, pos) == spec_first_hit_from(circles@, pos, i as int),
        decreases circles.len() - i,
    {
        let c = circles[i];
        let dx = if c.x >= pos.x {
            c.x - pos.x
        } else {
            pos.x - c.x
        };
        let dy = if c.y >= pos.y {
            c.y - pos.y
        } else {
            pos.y - c.y
        };
        proof {
            assert(dx * dx == (c.x - pos.x) * (c.x - pos.x) && dy * dy == (c.y - pos.y) * (c.y
                - pos.y) && dx * dx <= NORM_LIMIT * NORM_LIMIT && dy * dy <= NORM_LIMIT
                * NORM_LIMIT) by (nonlinear_arith)
                requires
                    dx == if c.x >= pos.x {
                        c.x - pos.x
                    } else {
                        pos.x - c.x
                    },
                    dy == if c.y >= pos.y {
                        c.y - pos.y
                    } else {
                        pos.y - c.y
                    },
                    c.x <= NORM_LIMIT,
                    c.y <= NORM_LIMIT,
                    pos.x <= NORM_LIMIT,
                    pos.y <= NORM_LIMIT,
            ;
        }
        let dot = dx * dx + dy * dy;
        if dot < radius_squared {
            return Some(i);
        }
        i = i + 1;
    }
    None
}

/// Takes the first stored point the cursor hits out of the store, by
/// swap-removal, and hands it back; leaves the store alone when nothing is
/// hit.
pub fn maybe_take(pos: Pos, circles: &mut Vec<Pos>) -> (r: Option<Pos>)
    requires
        anchors_in_range(old(circles)@),
        pos_in_range(pos),
        pos.x <= NORM_LIMIT,
        pos.y <= NORM_LIMIT,
    ensures
        anchors_in_range(final(circles)@),
        match spec_first_hit(old(circles)@, pos) {
            Some(i) => r == Some(old(circles)@[i]) && final(circles)@ == old(circles)@.update(
                i,
                old(circles)@.last(),
            ).drop_last(),
            None => r is None && final(circles)@ == old(circles)@,
        },
{
    if let Some(found) = inside_circle(pos, circles) {
        proof {
            lemma_first_hit_characterization(circles@, pos, 0);
        }
        let taken = circles.swap_remove(found);
        proof {
            let u = old(circles)@.update(found as int, old(circles)@.last());
            assert(circles@ == u.drop_last());
            assert forall|k: int| 0 <= k < circles@.len() implies (#[trigger] circles@[k]).x
                <= NORM_LIMIT && circles@[k].y <= NORM_LIMIT by {
                assert(circles@[k] == u[k]);
                assert(old(circles)@[old(circles)@.len() - 1] == old(circles)@.last());
                if k != found as int {
                    assert(u[k] == old(circles)@[k]);
                }
            }
        }
        Some(taken)
    } else {
        None
    }
}


/// A swap-removal preserves the coordinate bounds of the stored points.
proof fn lemma_swap_remove_in_range(points: Seq<Pos>, i: int)
    requires
        anchors_in_range(points),
        0 <= i < points.len(),
    ensures
        anchors_in_range(points.update(i, points.last()).drop_last()),
{
    let d = points.update(i, points.last()).drop_last();
    assert forall|k: int| 0 <= k < d.len() implies (#[trigger] d[k]).x <= NORM_LIMIT && d[k].y
        <= NORM_LIMIT by {
        assert(points[points.len() - 1] == points.last());
        if k != i {
            assert(d[k] == points[k]);
        }
    }
}

/// Delete-via-swap-remove invariant: removing index `i` by moving the last
/// element into its slot yields one point fewer, and exactly the original
/// multiset of points minus the removed one — positional order may differ,
/// the contents may not.
pub proof fn lemma_swap_remove_multiset(points: Seq<Pos>, i: int)
    requires
        0 <= i < points.len(),
    ensures
        points.update(i, points.last()).drop_last().len() == points.len() - 1,
        points.update(i, points.last()).drop_last().to_multiset() == points.to_multiset().remove(
            points[i],
        ),
{
    broadcast use vstd::seq_lib::group_to_multiset_ensures;
    broadcast use vstd::multiset::group_multiset_axioms;

    let n = points.len() as int;
    let t = points.update(i, points.last());
    let d = t.drop_last();
    if i == n - 1 {
        assert(t =~= points);
        assert(d =~= points.remove(n - 1));
        assert(points.remove(n - 1).to_multiset() == points.to_multiset().remove(points[n - 1]));
    } else {
        assert(t =~= points.remove(i).insert(i, points.last()));
        assert(points.remove(i).to_multiset() == points.to_multiset().remove(points[i]));
        assert(points.remove(i).insert(i, points.last()).to_multiset() == points.remove(
            i,
        ).to_multiset().insert(points.last()));
        assert(d =~= t.remove(n - 1));
        assert(t.remove(n - 1).to_multiset() == t.to_multiset().remove(t[n - 1]));
        assert(t[n - 1] == points.last());
        assert(points.to_multiset().remove(points[i]).insert(points.last()).remove(points.last())
            =~= points.to_multiset().remove(points[i]));
    }
}

/// Maps a cursor in editor-panel pixel space to its normalized position when
/// it lies inside the panel, and to nothing when it does not; an in-panel
/// cursor always normalizes to under one unit per axis.
pub fn pos_in_editor(cursor: Pos, editor: Rect) -> (r: Option<Pos>)
    requires
        rect_in_range(editor),
    ensures
        match r {
            Some(q) => spec_contains(editor, cursor) && q == spec_to_normalized(cursor, editor)
                && q.x < UNIT && q.y < UNIT,
            None => !spec_contains(editor, cursor),
        },
{
    if rect_contains(editor, cursor) {
        let q = rect_to_normalized(cursor, editor);
        proof {
            let dx = cursor.x - editor.x;
            let dy = cursor.y - editor.y;
            vstd::arithmetic::div_mod::lemma_div_pos_is_pos(dx * UNIT, editor.w as int);
            vstd::arithmetic::div_mod::lemma_remainder_lower(dx * UNIT, editor.w as int);
            vstd::arithmetic::div_mod::lemma_div_pos_is_pos(dy * UNIT, editor.h as int);
            vstd::arithmetic::div_mod::lemma_remainder_lower(dy * UNIT, editor.h as int);
            assert((dx * UNIT / (editor.w as int)) < UNIT && (dy * UNIT / (editor.h as int))
                < UNIT) by (nonlinear_arith)
                requires
                    0 <= dx < editor.w,
                    0 <= dy < editor.h,
                    0 < editor.w,
                    0 < editor.h,
                    (dx * UNIT / (editor.w as int)) * editor.w <= dx * UNIT,
                    (dy * UNIT / (editor.h as int)) * editor.h <= dy * UNIT,
                    (dx * UNIT / (editor.w as int)) >= 0,
                    (dy * UNIT / (editor.h as int)) >= 0,
                    UNIT >= 1,
            ;
        }
        Some(q)
    } else {
        None
    }
}

/// What one pointer observation does to the store: inside the panel a press
/// selects the first hit point or creates and selects a new one, holding
/// drags the selected point to the cursor, and a release clears the
/// selection; outside the panel a release deletes the selected point by
/// swap-removal, and nothing else has any effect.
pub open spec fn spec_edit(
    points: Seq<Pos>,
    sel: Option<usize>,
    event: PointerEvent,
    cursor: Pos,
    editor: Rect,
) -> (Seq<Pos>, Option<usize>) {
    if spec_contains(editor, cursor) {
        let norm = spec_to_normalized(cursor, editor);
        match event {
            PointerEvent::Press => match spec_first_hit(points, norm) {
                Some(i) => (points, Some(i as usize)),
                None => (points.push(norm), Some(points.len() as usize)),
            },
            PointerEvent::Held => match sel {
                Some(s) => (points.update(s as int, norm), sel),
                None => (points, sel),
            },
            PointerEvent::Release => (points, None::<usize>),
            PointerEvent::Idle => (points, sel),
        }
    } else {
        match event {
            PointerEvent::Release => match sel {
                Some(s) => (points.update(s as int, points.last()).drop_last(), None::<usize>),
                None => (points, None::<usize>),
            },
            _ => (points, sel),
        }
    }
}

/// Applies one pointer observation to the store, exactly as `spec_edit`
/// says: create, select, drag or delete.  Editing keeps every stored point
/// under the coordinate bound and the selection valid.
pub fn edit_circles(
    points: &mut Vec<Pos>,
    selected: &mut Option<usize>,
    event: PointerEvent,
    cursor: Pos,
    editor: Rect,
)
    requires
        rect_in_range(editor),
        anchors_in_range(old(points)@),
        selected_ok(*old(selected), old(points)@),
        old(points)@.len() < usize::MAX,
    ensures
        anchors_in_range(final(points)@),
        selected_ok(*final(selected), final(points)@),
        (final(points)@, *final(selected)) == spec_edit(
            old(points)@,
            *old(selected),
            event,
            cursor,
            editor,
        ),
{
    match pos_in_editor(cursor, editor) {
        Some(norm) => {
            match event {
                PointerEvent::Press => {
                    match inside_circle(norm, points) {
                        Some(i) => {
                            proof {
                                lemma_first_hit_characterization(points@, norm, 0);
                            }
                            *selected = Some(i);
                        },
                        None => {
                            points.push(norm);
                            *selected = Some(points.len() - 1);
                        },
                    }
                },
                PointerEvent::Held => {
                    if let Some(s) = *selected {
                        points.set(s, norm);
                    }
                },
                PointerEvent::Release => {
                    *selected = None;
                },
                PointerEvent::Idle => {},
            }
        },
        None => {
            match event {
                PointerEvent::Release => {
                    if let Some(s) = *selected {
                        points.swap_remove(s);
                        proof {
                            lemma_swap_remove_in_range(old(points)@, s as int);
                        }
                    }
                    *selected = None;
                },
                _ => {},
            }
        },
    }
}

} // verus!
