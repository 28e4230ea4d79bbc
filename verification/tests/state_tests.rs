use nested_points::geometry::{Pos, Rect};
use nested_points::state::State;

fn arena() -> Rect {
    Rect { x: 456, y: 224, w: 300, h: 300 }
}

#[test]
fn new_state_is_empty_at_depth_one() {
    let s = State::new();
    assert!(s.circles.is_empty());
    assert_eq!(s.selected, None);
    assert_eq!(s.levels, 1);
    assert!(s.targets.is_empty());
    assert_eq!(s.accumulated_score, 0);
}

#[test]
fn levels_go_up_and_down() {
    let mut s = State::new();
    s.increase_levels();
    s.increase_levels();
    assert_eq!(s.levels, 3);
    s.decrease_levels();
    assert_eq!(s.levels, 2);
    s.decrease_levels();
    s.decrease_levels();
    assert_eq!(s.levels, 0);
}

#[test]
fn advance_target_banks_the_score_and_places_a_target() {
    let mut s = State::new();
    s.circles.push(Pos { x: 0, y: 0 });
    s.circles.push(Pos { x: 300, y: 400 });
    s.levels = 2;
    s.advance_target(2500, arena());
    // the layout scores 500 x 2
    assert_eq!(s.accumulated_score, 1000);
    assert_eq!(s.targets, vec![Pos { x: 606, y: 374 }]);
    s.advance_target(123, arena());
    assert_eq!(s.accumulated_score, 2000);
    assert_eq!(s.targets.len(), 2);
}

#[test]
fn restart_clears_the_targets_and_keeps_the_rest() {
    let mut s = State::new();
    s.circles.push(Pos { x: 100, y: 100 });
    s.levels = 4;
    s.advance_target(123, arena());
    s.advance_target(456, arena());
    assert_eq!(s.targets.len(), 2);
    s.restart();
    assert!(s.targets.is_empty());
    assert_eq!(s.circles.len(), 1);
    assert_eq!(s.levels, 4);
}
