use nested_points::geometry::Pos;
use nested_points::layout::editor_rect;
use nested_points::store::{edit_circles, inside_circle, maybe_take, pos_in_editor, PointerEvent};

fn sorted(mut v: Vec<(u64, u64)>) -> Vec<(u64, u64)> {
    v.sort();
    v
}

fn pairs(points: &[Pos]) -> Vec<(u64, u64)> {
    points.iter().map(|p| (p.x, p.y)).collect()
}

#[test]
fn cursor_inside_panel_normalizes() {
    // editor panel: origin (20, 52), 200 x 200 pixels
    let q = pos_in_editor(Pos { x: 120, y: 152 }, editor_rect());
    assert_eq!(q, Some(Pos { x: 500, y: 500 }));
    let corner = pos_in_editor(Pos { x: 20, y: 52 }, editor_rect());
    assert_eq!(corner, Some(Pos { x: 0, y: 0 }));
}

#[test]
fn cursor_outside_panel_is_none() {
    assert_eq!(pos_in_editor(Pos { x: 19, y: 152 }, editor_rect()), None);
    assert_eq!(pos_in_editor(Pos { x: 220, y: 152 }, editor_rect()), None);
    assert_eq!(pos_in_editor(Pos { x: 120, y: 5 }, editor_rect()), None);
    assert_eq!(pos_in_editor(Pos { x: 120, y: 252 }, editor_rect()), None);
}

#[test]
fn hit_test_is_reflexive() {
    let circles = vec![Pos { x: 500, y: 500 }, Pos { x: 100, y: 900 }];
    // a cursor exactly at a stored point's position always hits it
    assert_eq!(inside_circle(Pos { x: 500, y: 500 }, &circles), Some(0));
    assert_eq!(inside_circle(Pos { x: 100, y: 900 }, &circles), Some(1));
}

#[test]
fn hit_test_radius_and_ties() {
    let circles = vec![Pos { x: 500, y: 500 }, Pos { x: 530, y: 500 }];
    // squared hit radius is 50 * 50 = 2500 normalized ticks
    assert_eq!(inside_circle(Pos { x: 549, y: 500 }, &circles), Some(0));
    assert_eq!(inside_circle(Pos { x: 550, y: 500 }, &circles), Some(1));
    assert_eq!(inside_circle(Pos { x: 600, y: 500 }, &circles), None);
    // a cursor between the two hits the first in storage order, not the nearest
    assert_eq!(inside_circle(Pos { x: 525, y: 500 }, &circles), Some(0));
}

#[test]
fn press_without_hit_creates_and_selects() {
    let mut points: Vec<Pos> = Vec::new();
    let mut selected: Option<usize> = None;
    edit_circles(&mut points, &mut selected, PointerEvent::Press, Pos { x: 120, y: 152 },
        editor_rect());
    assert_eq!(points, vec![Pos { x: 500, y: 500 }]);
    assert_eq!(selected, Some(0));
}

#[test]
fn press_on_existing_point_selects_it() {
    let mut points = vec![Pos { x: 100, y: 100 }, Pos { x: 500, y: 500 }];
    let mut selected: Option<usize> = None;
    edit_circles(&mut points, &mut selected, PointerEvent::Press, Pos { x: 120, y: 152 },
        editor_rect());
    assert_eq!(points.len(), 2);
    assert_eq!(selected, Some(1));
}

#[test]
fn held_inside_drags_the_selected_point() {
    let mut points = vec![Pos { x: 100, y: 100 }];
    let mut selected = Some(0usize);
    edit_circles(&mut points, &mut selected, PointerEvent::Held, Pos { x: 60, y: 92 },
        editor_rect());
    assert_eq!(points, vec![Pos { x: 200, y: 200 }]);
    assert_eq!(selected, Some(0));
}

#[test]
fn held_outside_freezes_the_point() {
    let mut points = vec![Pos { x: 100, y: 100 }];
    let mut selected = Some(0usize);
    edit_circles(&mut points, &mut selected, PointerEvent::Held, Pos { x: 500, y: 92 },
        editor_rect());
    // no clamping, no mutation: the point keeps its last in-panel position
    assert_eq!(points, vec![Pos { x: 100, y: 100 }]);
    assert_eq!(selected, Some(0));
}

#[test]
fn release_inside_clears_the_selection() {
    let mut points = vec![Pos { x: 100, y: 100 }];
    let mut selected = Some(0usize);
    edit_circles(&mut points, &mut selected, PointerEvent::Release, Pos { x: 60, y: 92 },
        editor_rect());
    assert_eq!(points.len(), 1);
    assert_eq!(selected, None);
}

#[test]
fn release_outside_deletes_by_swap_remove() {
    let mut points = vec![
        Pos { x: 100, y: 100 },
        Pos { x: 200, y: 200 },
        Pos { x: 300, y: 300 },
        Pos { x: 400, y: 400 },
    ];
    let mut selected = Some(1usize);
    edit_circles(&mut points, &mut selected, PointerEvent::Release, Pos { x: 500, y: 92 },
        editor_rect());
    assert_eq!(selected, None);
    // one fewer point; the last point moved into the vacated slot
    assert_eq!(points, vec![Pos { x: 100, y: 100 }, Pos { x: 400, y: 400 }, Pos { x: 300, y: 300 }]);
    // and the multiset of survivors is exactly the original minus the deleted
    assert_eq!(
        sorted(pairs(&points)),
        vec![(100, 100), (300, 300), (400, 400)],
    );
}

#[test]
fn idle_changes_nothing() {
    let mut points = vec![Pos { x: 100, y: 100 }];
    let mut selected = Some(0usize);
    edit_circles(&mut points, &mut selected, PointerEvent::Idle, Pos { x: 60, y: 92 },
        editor_rect());
    assert_eq!(points, vec![Pos { x: 100, y: 100 }]);
    assert_eq!(selected, Some(0));
}

#[test]
fn release_outside_without_selection_changes_nothing() {
    let mut points = vec![Pos { x: 100, y: 100 }];
    let mut selected: Option<usize> = None;
    edit_circles(&mut points, &mut selected, PointerEvent::Release, Pos { x: 500, y: 92 },
        editor_rect());
    assert_eq!(points.len(), 1);
    assert_eq!(selected, None);
}

#[test]
fn maybe_take_removes_the_hit_point() {
    let mut circles = vec![Pos { x: 100, y: 100 }, Pos { x: 500, y: 500 }, Pos { x: 900, y: 900 }];
    let taken = maybe_take(Pos { x: 510, y: 490 }, &mut circles);
    assert_eq!(taken, Some(Pos { x: 500, y: 500 }));
    assert_eq!(circles, vec![Pos { x: 100, y: 100 }, Pos { x: 900, y: 900 }]);
    let missed = maybe_take(Pos { x: 300, y: 700 }, &mut circles);
    assert_eq!(missed, None);
    assert_eq!(circles.len(), 2);
}

#[test]
fn coincident_points_hit_the_first_in_storage_order() {
    let circles = vec![Pos { x: 400, y: 400 }, Pos { x: 400, y: 400 }];
    assert_eq!(inside_circle(Pos { x: 400, y: 400 }, &circles), Some(0));
}
