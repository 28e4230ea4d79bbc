//! The target generator.
//!
//! A target is an ephemeral point in the arena, derived deterministically
//! from a time-derived seed: the seed's sub-unit part (its value modulo
//! `UNIT` ticks) is stretched by two different multipliers — a fixed one for
//! the horizontal axis, and one varied by the seed's whole-unit part modulo
//! seven for the vertical axis — and the fractional parts of the results,
//! taken modulo `UNIT` again, give the normalized coordinates.  Not random in
//! any cryptographic sense; reproducible given the same seed, by design.

use vstd::prelude::*;

use crate::geometry::{Pos, Rect, UNIT, rect_in_range, spec_to_rect, normalized_to_rect};

verus! {

/// The normalized position derived from a seed.
pub open spec fn spec_target_normalized(seed: u64) -> Pos {
    (Pos {
        x: ((seed as int % (UNIT as int)) * 37 % (UNIT as int)) as u64,
        y: ((seed as int % (UNIT as int)) * (57 + (seed as int / (UNIT as int)) % 7) % (
        UNIT as int)) as u64,
    })
}

/// The target position derived from a seed, in arena pixel space.
pub open spec fn spec_target(seed: u64, arena: Rect) -> Pos {
    spec_to_rect(spec_target_normalized(seed), arena)
}

/// Decomposes the seed into two normalized coordinates, each under one unit.
pub fn create_random_target_normalized(seed: u64) -> (t: Pos)
    ensures
        t == spec_target_normalized(seed),
        t.x < UNIT,
        t.y < UNIT,
{
    let base = seed % UNIT;
    let shift = 57 + (seed / UNIT) % 7;
    proof {
        assert(base * shift < 64000) by (nonlinear_arith)
            requires
                base < 1000,
                shift < 64,
        ;
    }
    Pos { x: base * 37 % UNIT, y: base * shift % UNIT }
}

/// The target for a seed: a pure function of `(seed, arena)` — the same
/// inputs always yield the same point — whose result always lies within the
/// arena's bounds.
pub fn create_random_target(seed: u64, arena: Rect) -> (t: Pos)
    requires
        rect_in_range(arena),
    ensures
        t == spec_target(seed, arena),
        arena.x <= t.x <= arena.x + arena.w,
        arena.y <= t.y <= arena.y + arena.h,
{
    let norm = create_random_target_normalized(seed);
    let t = normalized_to_rect(norm, arena);
    proof {
        let fx = norm.x as int * arena.w / (UNIT as int);
        let fy = norm.y as int * arena.h / (UNIT as int);
        vstd::arithmetic::div_mod::lemma_div_pos_is_pos(norm.x as int * arena.w, UNIT as int);
        vstd::arithmetic::div_mod::lemma_remainder_lower(norm.x as int * arena.w, UNIT as int);
        vstd::arithmetic::div_mod::lemma_div_pos_is_pos(norm.y as int * arena.h, UNIT as int);
        vstd::arithmetic::div_mod::lemma_remainder_lower(norm.y as int * arena.h, UNIT as int);
        assert(fx <= arena.w && fy <= arena.h) by (nonlinear_arith)
            requires
                0 <= fx,
                0 <= fy,
                fx * UNIT <= norm.x as int * arena.w,
                fy * UNIT <= norm.y as int * arena.h,
                norm.x < UNIT,
                norm.y < UNIT,
                0 < arena.w,
                0 < arena.h,
                UNIT >= 1,
        ;
    }
    t
}

} // verus!
