use nested_points::geometry::{Pos, Rect};
use nested_points::layout::{canvas_rect, editor_rect};
use nested_points::render::{render, Color, Recursion, Shape};

fn white() -> Color {
    Color { r: 255, g: 255, b: 255, a: 255 }
}

fn settled() -> Color {
    Color { r: 204, g: 128, b: 51, a: 178 }
}

fn strong() -> Color {
    Color { r: 204, g: 204, b: 51, a: 178 }
}

fn screen() -> u64 {
    800
}

#[test]
fn empty_pass_draws_nothing() {
    let anchors: Vec<Pos> = Vec::new();
    let out = render(&anchors, None, 3, 1000, editor_rect(), canvas_rect(screen()));
    assert_eq!(out.primitives.len(), 0);
    assert_eq!(out.counted, 0);
    assert!(!out.exceeded);
}

#[test]
fn depth_zero_draws_marker_and_terminal_per_anchor() {
    let anchors = vec![Pos { x: 100, y: 100 }, Pos { x: 700, y: 300 }, Pos { x: 250, y: 900 }];
    let out = render(&anchors, None, 0, 1000, editor_rect(), canvas_rect(screen()));
    assert_eq!(out.primitives.len(), 6);
    assert_eq!(out.counted, 3);
    assert!(!out.exceeded);
    let canvas = canvas_rect(screen());
    for (i, anchor) in anchors.iter().enumerate() {
        let marker = out.primitives[2 * i];
        assert_eq!(marker.shape, Shape::Circle);
        assert_eq!(marker.size, 10);
        assert!(!marker.filled);
        assert_eq!(marker.color, settled());
        let terminal = out.primitives[2 * i + 1];
        assert_eq!(terminal.shape, Shape::Square);
        assert!(terminal.filled);
        // the terminal sits at the anchor's own canvas position
        assert_eq!(terminal.pos.x, anchor.x * canvas.w / 1000 + canvas.x);
        assert_eq!(terminal.pos.y, anchor.y * canvas.h / 1000 + canvas.y);
    }
}

#[test]
fn one_anchor_depth_one_is_two_primitives() {
    let anchors = vec![Pos { x: 500, y: 500 }];
    let out = render(&anchors, Some(0), 1, 100, editor_rect(), canvas_rect(screen()));
    assert_eq!(out.primitives.len(), 2);
    assert_eq!(out.counted, 1);
    assert!(!out.exceeded);
    assert_eq!(out.primitives[0].shape, Shape::Circle);
    assert!(out.primitives[0].filled); // selected anchors draw a filled marker
    assert_eq!(out.primitives[0].color, strong());
    assert!(out.primitives[1].filled); // the terminal square
    assert_eq!(out.primitives[1].shape, Shape::Square);
}

#[test]
fn one_anchor_depth_two_is_three_primitives() {
    let anchors = vec![Pos { x: 500, y: 500 }];
    let out = render(&anchors, None, 2, 100, editor_rect(), canvas_rect(screen()));
    assert_eq!(out.primitives.len(), 3);
    assert_eq!(out.counted, 2);
    assert!(!out.exceeded);
}

#[test]
fn two_anchors_depth_two_is_fourteen_primitives() {
    let anchors = vec![Pos { x: 500, y: 500 }, Pos { x: 200, y: 800 }];
    let out = render(&anchors, None, 2, 100, editor_rect(), canvas_rect(screen()));
    // 2 x (1 + 2 + 4): per anchor one marker, two inner nodes, four terminals
    assert_eq!(out.primitives.len(), 14);
    assert_eq!(out.counted, 12);
    assert!(!out.exceeded);
}

#[test]
fn counts_follow_the_closed_form() {
    let canvas = canvas_rect(screen());
    for n in 0..5u64 {
        let anchors: Vec<Pos> = (0..n).map(|k| Pos { x: 100 * k, y: 50 * k }).collect();
        for d in 0..5u32 {
            let out = render(&anchors, None, d, 1_000_000, editor_rect(), canvas);
            let per_anchor: u64 = if d == 0 {
                1
            } else {
                (1..=d).map(|k| n.pow(k)).sum()
            };
            assert_eq!(out.counted, n * per_anchor);
            assert_eq!(out.primitives.len() as u64, n + n * per_anchor);
            assert!(!out.exceeded);
        }
    }
}

#[test]
fn render_is_deterministic() {
    let anchors = vec![Pos { x: 10, y: 990 }, Pos { x: 340, y: 120 }];
    let a = render(&anchors, Some(1), 3, 500, editor_rect(), canvas_rect(screen()));
    let b = render(&anchors, Some(1), 3, 500, editor_rect(), canvas_rect(screen()));
    assert_eq!(a.primitives, b.primitives);
    assert_eq!(a.counted, b.counted);
    assert_eq!(a.exceeded, b.exceeded);
}

#[test]
fn budget_exceeded_degrades_but_keeps_markers() {
    // 5 x (5 + 25 + 125 + 625 + 3125 + 15625) far exceeds a 16000 ceiling
    let anchors = vec![
        Pos { x: 100, y: 100 },
        Pos { x: 300, y: 200 },
        Pos { x: 500, y: 500 },
        Pos { x: 700, y: 300 },
        Pos { x: 900, y: 800 },
    ];
    let out = render(&anchors, None, 6, 16000, editor_rect(), canvas_rect(screen()));
    assert!(out.exceeded);
    // the counter stops exactly at the ceiling, never beyond
    assert_eq!(out.counted, 16000);
    // every anchor still renders its settled marker: the first one before its
    // expansion, the remaining four after the abort, in the fallback color
    assert_eq!(out.primitives.len(), 5 + 16000);
    let editor = editor_rect();
    assert_eq!(out.primitives[0].shape, Shape::Circle);
    assert_eq!(out.primitives[0].color, settled());
    for k in 0..4usize {
        let marker = out.primitives[16001 + k];
        let anchor = anchors[k + 1];
        assert_eq!(marker.shape, Shape::Circle);
        assert_eq!(marker.size, 10);
        assert_eq!(marker.color, white());
        assert_eq!(marker.pos.x, anchor.x * editor.w / 1000 + editor.x);
        assert_eq!(marker.pos.y, anchor.y * editor.h / 1000 + editor.y);
    }
}

#[test]
fn budget_is_never_passed() {
    let anchors = vec![Pos { x: 500, y: 500 }, Pos { x: 250, y: 750 }];
    for ceiling in 0..30u64 {
        let out = render(&anchors, None, 3, ceiling, editor_rect(), canvas_rect(screen()));
        assert!(out.counted <= ceiling);
        // demand for n = 2, d = 3 is 2 x (2 + 4 + 8) = 28
        assert_eq!(out.exceeded, 28 > ceiling);
        assert_eq!(out.counted, ceiling.min(28));
    }
}

#[test]
fn selection_highlights_its_subtree() {
    let anchors = vec![Pos { x: 100, y: 100 }, Pos { x: 900, y: 900 }];
    let out = render(&anchors, Some(1), 1, 100, editor_rect(), canvas_rect(screen()));
    // layout: marker0, child0-of-0, child1-of-0 (highlighted), marker1, ...
    assert_eq!(out.primitives.len(), 2 + 2 + 2);
    assert_eq!(out.primitives[0].color, settled());
    assert_eq!(out.primitives[2].color, strong()); // sibling 1 is selected
    assert_eq!(out.primitives[3].color, strong()); // marker of the selected anchor
    assert!(out.primitives[3].filled);
}

#[test]
fn recursion_state_reduces() {
    let mut st = Recursion { level: 3, den: 2, radius: 10 };
    st.reduce();
    assert_eq!(st.level, 2);
    assert_eq!(st.den, 4);
    assert_eq!(st.radius, 7);
    assert!(st.should_continue());
    st.reduce();
    st.reduce();
    assert!(!st.should_continue());
}

#[test]
fn recursion_color_fades_with_level() {
    let st = Recursion { level: 3, den: 2, radius: 10 };
    let c = st.color(Color { r: 204, g: 128, b: 51, a: 178 });
    assert_eq!(c, Color { r: 189, g: 128, b: 51, a: 178 });
    let deep = Recursion { level: 60, den: 2, radius: 10 };
    let clamped = deep.color(Color { r: 204, g: 128, b: 51, a: 178 });
    assert_eq!(clamped.r, 0); // fades clamp at zero
}

#[test]
fn a_single_anchor_chain_runs_arbitrarily_deep() {
    // with one anchor the expansion is a chain: one node per level
    let anchors = vec![Pos { x: 500, y: 500 }];
    let out = render(&anchors, None, 100, 1000, editor_rect(), canvas_rect(screen()));
    assert_eq!(out.counted, 100);
    assert_eq!(out.primitives.len(), 101);
    assert!(!out.exceeded);
}

#[test]
fn coincident_anchors_render_like_any_others() {
    let anchors = vec![Pos { x: 400, y: 400 }, Pos { x: 400, y: 400 }];
    let out = render(&anchors, None, 1, 100, editor_rect(), canvas_rect(screen()));
    assert_eq!(out.primitives.len(), 2 + 4);
    assert_eq!(out.counted, 4);
    assert!(!out.exceeded);
}
