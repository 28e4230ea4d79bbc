use nested_points::geometry::{Pos, Rect};
use nested_points::target::{create_random_target, create_random_target_normalized};

fn arena() -> Rect {
    Rect { x: 456, y: 224, w: 300, h: 300 }
}

#[test]
fn target_is_deterministic() {
    for seed in [0u64, 1, 999, 1000, 123_456_789, u64::MAX] {
        let a = create_random_target(seed, arena());
        let b = create_random_target(seed, arena());
        assert_eq!(a, b);
    }
}

#[test]
fn target_lies_within_the_arena() {
    let r = arena();
    for seed in 0..5000u64 {
        let t = create_random_target(seed.wrapping_mul(2_654_435_761), r);
        assert!(r.x <= t.x && t.x <= r.x + r.w);
        assert!(r.y <= t.y && t.y <= r.y + r.h);
    }
}

#[test]
fn target_normalized_exact_values() {
    // seed 123: sub-unit part 123; 123 * 37 = 4551 -> 551 ticks;
    // whole-unit part 0, so the second multiplier is 57: 123 * 57 = 7011 -> 11
    assert_eq!(create_random_target_normalized(123), Pos { x: 551, y: 11 });
    // seed 2500: sub-unit part 500; 500 * 37 = 18500 -> 500;
    // whole-unit part 2, multiplier 59: 500 * 59 = 29500 -> 500
    assert_eq!(create_random_target_normalized(2500), Pos { x: 500, y: 500 });
}

#[test]
fn target_maps_into_arena_pixels() {
    let t = create_random_target(2500, arena());
    // normalized (500, 500) lands mid-arena
    assert_eq!(t, Pos { x: 456 + 150, y: 224 + 150 });
}
