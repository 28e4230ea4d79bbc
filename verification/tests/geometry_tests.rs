use nested_points::geometry::{normalized_to_rect, rect_contains, rect_to_normalized, Pos, Rect};
use nested_points::layout::{calculate_arena, canvas_rect, editor_rect,
    editor_absolute_to_normalized, normalized_to_canvas_absolute, normalized_to_editor_absolute};

#[test]
fn normalized_maps_into_a_rectangle_and_back() {
    let r = Rect { x: 100, y: 50, w: 400, h: 200 };
    let p = normalized_to_rect(Pos { x: 500, y: 250 }, r);
    assert_eq!(p, Pos { x: 300, y: 100 });
    let q = rect_to_normalized(p, r);
    assert_eq!(q, Pos { x: 500, y: 250 });
}

#[test]
fn containment_is_origin_inclusive_and_far_edge_exclusive() {
    let r = Rect { x: 100, y: 50, w: 400, h: 200 };
    assert!(rect_contains(r, Pos { x: 100, y: 50 }));
    assert!(rect_contains(r, Pos { x: 499, y: 249 }));
    assert!(!rect_contains(r, Pos { x: 500, y: 100 }));
    assert!(!rect_contains(r, Pos { x: 200, y: 250 }));
    assert!(!rect_contains(r, Pos { x: 99, y: 100 }));
}

#[test]
fn editor_panel_sits_under_its_heading() {
    assert_eq!(editor_rect(), Rect { x: 20, y: 52, w: 200, h: 200 });
    assert_eq!(normalized_to_editor_absolute(Pos { x: 500, y: 500 }), Pos { x: 120, y: 152 });
    assert_eq!(editor_absolute_to_normalized(Pos { x: 120, y: 152 }), Pos { x: 500, y: 500 });
}

#[test]
fn canvas_tracks_the_screen_width() {
    let c = canvas_rect(800);
    assert_eq!(c, Rect { x: 456, y: 224, w: 156, h: 156 });
    let wider = canvas_rect(1600);
    assert_eq!(wider, Rect { x: 912, y: 448, w: 396, h: 396 });
    assert_eq!(normalized_to_canvas_absolute(Pos { x: 1000, y: 0 }, 800), Pos { x: 612, y: 224 });
}

#[test]
fn arena_follows_the_canvas() {
    let a = calculate_arena(800);
    // origin squeezed left of the canvas, size mapped through the canvas rule
    assert_eq!(a.x, 456 * 6 / 10);
    assert_eq!(a.y, 224);
    assert_eq!(a.w, 300 * 156 / 1000 + 456);
    assert_eq!(a.h, 300 * 156 / 1000 + 224);
}
