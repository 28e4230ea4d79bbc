//! The frame state: the point store, the recursion depth, the targets and
//! the accumulated score, with the operations the frame loop performs on it.

use vstd::prelude::*;

use crate::geometry::{Pos, Rect, rect_in_range};
use crate::render::anchors_in_range;
use crate::score::{compute_score, spec_score, SCORE_POINTS_LIMIT, SCORE_LEVELS_LIMIT};
use crate::store::selected_ok;
use crate::target::{create_random_target, spec_target};

verus! {

/// Everything that survives from one frame to the next: the anchor points,
/// the selection, the nesting depth, the targets placed so far and the score
/// accumulated when advancing targets.
pub struct State {
    /// The user-placed anchor points, in normalized space.
    pub circles: Vec<Pos>,
    /// The index of the point being dragged, if any.
    pub selected: Option<usize>,
    /// The recursion depth of the nested rendering.
    pub levels: u32,
    /// The targets placed so far, in arena pixel space.
    pub targets: Vec<Pos>,
    /// The score banked by advancing past targets.
    pub accumulated_score: u64,
}

/// The state's invariant: every stored point is in range and the selection,
/// if any, indexes a stored point.
pub open spec fn state_wf(s: &State) -> bool {
    anchors_in_range(s.circles@) && selected_ok(s.selected, s.circles@)
}

impl State {
    /// A fresh state: no points, no selection, one nesting level, no targets
    /// and no score.
    pub fn new() -> (s: Self)
        ensures
            s.circles@ == Seq::<Pos>::empty(),
            s.selected is None,
            s.levels == 1,
            s.targets@ == Seq::<Pos>::empty(),
            s.accumulated_score == 0,
            state_wf(&s),
    {
        Self {
            circles: Vec::new(),
            selected: None,
            levels: 1,
            targets: Vec::new(),
            accumulated_score: 0,
        }
    }

    /// One more nesting level.
    pub fn increase_levels(&mut self)
        requires
            old(self).levels < u32::MAX,
        ensures
            final(self).levels == old(self).levels + 1,
            final(self).circles == old(self).circles,
            final(self).selected == old(self).selected,
            final(self).targets == old(self).targets,
            final(self).accumulated_score == old(self).accumulated_score,
    {
        self.levels = self.levels + 1;
    }

    /// One nesting level fewer; the caller offers this only above zero.
    pub fn decrease_levels(&mut self)
        requires
            old(self).levels >= 1,
        ensures
            final(self).levels == old(self).levels - 1,
            final(self).circles == old(self).circles,
            final(self).selected == old(self).selected,
            final(self).targets == old(self).targets,
            final(self).accumulated_score == old(self).accumulated_score,
    {
        self.levels = self.levels - 1;
    }

    /// Advances the game: banks the current layout's score (saturating at
    /// the counter's top) and places the next target, derived from the seed,
    /// in the arena.
    pub fn advance_target(&mut self, seed: u64, arena: Rect)
        requires
            state_wf(old(self)),
            rect_in_range(arena),
            old(self).circles@.len() <= SCORE_POINTS_LIMIT,
            old(self).levels <= SCORE_LEVELS_LIMIT,
            old(self).targets@.len() < usize::MAX,
        ensures
            state_wf(final(self)),
            final(self).accumulated_score as int == if old(self).accumulated_score + spec_score(
                old(self).circles@,
                old(self).levels,
            ) <= u64::MAX {
                old(self).accumulated_score + spec_score(old(self).circles@, old(self).levels)
            } else {
                u64::MAX as int
            },
            final(self).targets@ == old(self).targets@.push(spec_target(seed, arena)),
            final(self).circles == old(self).circles,
            final(self).selected == old(self).selected,
            final(self).levels == old(self).levels,
    {
        let score = compute_score(&self.circles, self.levels);
        self.accumulated_score = match self.accumulated_score.checked_add(score) {
            Some(v) => v,
            None => u64::MAX,
        };
        let target = create_random_target(seed, arena);
        self.targets.push(target);
    }

    /// Resets the game: clears every target placed so far.
    pub fn restart(&mut self)
        ensures
            final(self).targets@ == Seq::<Pos>::empty(),
            final(self).circles == old(self).circles,
            final(self).selected == old(self).selected,
            final(self).levels == old(self).levels,
            final(self).accumulated_score == old(self).accumulated_score,
    {
        self.targets.clear();
    }
}

} // verus!
