//! The recursive nested-point renderer.
//!
//! Given the anchor points, the selected index, a recursion depth and a hard
//! budget, one render pass produces a bounded sequence of drawing primitives.
//! Per top-level anchor the pass emits one settled marker (a fixed overhead
//! that does not count against the budget) and then expands the anchor: at
//! depth 0 the expansion is a single terminal node at the anchor itself; at
//! depth `d >= 1` every node spawns one child per anchor, so the expansion
//! emits `n + n^2 + ... + n^d` nodes.  Every node emits exactly one primitive:
//! terminal nodes (no levels left) a filled square, inner nodes an outlined
//! circle.  The nest transform is the axis-aligned rule: a child for sibling
//! anchor `q` sits at `current + q * scale`, where the scale factor halves at
//! each level.  Once the budget ceiling is reached the whole expansion aborts
//! and the remaining anchors draw only their settled markers, in a flat
//! fallback color.

use vstd::prelude::*;

use crate::geometry::{Pos, Rect, pos_in_range, rect_in_range, spec_to_rect, normalized_to_rect};

verus! {

/// Upper bound on an anchor coordinate handed to the renderer: a normalized
/// coordinate may leave the unit square, but not by more than this.
pub const NORM_LIMIT: u64 = 1_000_000;

/// Visual radius of a settled marker, in pixels.
pub const RADIUS_PX: u64 = 10;

/// How much the red channel fades per remaining recursion level.
pub const FADE_PER_LEVEL: u8 = 5;

/// An RGBA color with 8-bit channels.
#[derive(Clone, Copy, PartialEq, Eq, Structural, Debug)]
pub struct Color {
    pub r: u8,
    pub g: u8,
    pub b: u8,
    pub a: u8,
}

/// The shape of a drawing primitive.
#[derive(Clone, Copy, PartialEq, Eq, Structural, Debug)]
pub enum Shape {
    Circle,
    Square,
}

/// One drawing instruction: a shape at a pixel position with a size, a color
/// and a fill flag.
#[derive(Clone, Copy, PartialEq, Eq, Structural, Debug)]
pub struct Primitive {
    pub shape: Shape,
    pub pos: Pos,
    pub size: u64,
    pub color: Color,
    pub filled: bool,
}

/// The budget ceiling was passed: the render pass stops expanding.
#[derive(Clone, Copy, PartialEq, Eq, Structural, Debug)]
pub struct BudgetExceeded;

/// The highlight color of the selected anchor's subtree: strong yellow.
pub open spec fn strong_color() -> Color {
    (Color { r: 204, g: 204, b: 51, a: 178 })
}

/// The color of an unselected anchor's settled marker and subtree: orange.
pub open spec fn settled_color() -> Color {
    (Color { r: 204, g: 128, b: 51, a: 178 })
}

/// The flat fallback color for markers drawn after the budget ran out.
pub open spec fn fallback_color() -> Color {
    (Color { r: 255, g: 255, b: 255, a: 255 })
}

/// Is `index` the selected one?
pub open spec fn spec_same(selected: Option<usize>, index: int) -> bool {
    match selected {
        Some(s) => s == index,
        None => false,
    }
}

/// Is `index` the selected one?
pub fn same(selected: Option<usize>, index: usize) -> (b: bool)
    ensures
        b == spec_same(selected, index as int),
{
    match selected {
        Some(s) => s == index,
        None => false,
    }
}

/// The per-level color attenuation: the red channel loses `FADE_PER_LEVEL`
/// per remaining level, clamped at zero.
pub open spec fn spec_fade(c: Color, level: u32) -> Color {
    if c.r > level * FADE_PER_LEVEL {
        (Color { r: (c.r - level * FADE_PER_LEVEL) as u8, g: c.g, b: c.b, a: c.a })
    } else {
        (Color { r: 0, g: c.g, b: c.b, a: c.a })
    }
}

/// The state carried through the recursive descent: remaining levels, the
/// denominator of the geometric shrink factor (the scale is `1 / den`, and it
/// halves at each level), and the visual radius, which shrinks by a fixed
/// three-quarters ratio per level.
#[derive(Clone, Copy, PartialEq, Eq, Structural, Debug)]
pub struct Recursion {
    pub level: u32,
    pub den: u64,
    pub radius: u64,
}

/// The denominator after one more level: doubled, saturating at `u64::MAX`
/// (an offset divided by the saturated denominator is zero anyway).
pub open spec fn spec_next_den(den: u64) -> u64 {
    if den <= u64::MAX / 2 {
        (den * 2) as u64
    } else {
        u64::MAX
    }
}

/// The reduced copy of the state that each recursive call receives.
pub open spec fn spec_reduce(st: Recursion) -> Recursion {
    (Recursion {
        level: (st.level - 1) as u32,
        den: spec_next_den(st.den),
        radius: (st.radius * 3 / 4) as u64,
    })
}

impl Recursion {
    /// Reduce the state for one more level of descent.
    pub fn reduce(&mut self)
        requires
            old(self).level >= 1,
            old(self).radius <= RADIUS_PX,
        ensures
            *final(self) == spec_reduce(*old(self)),
    {
        self.level = self.level - 1;
        self.den = if self.den <= u64::MAX / 2 {
            self.den * 2
        } else {
            u64::MAX
        };
        self.radius = self.radius * 3 / 4;
    }

    /// Are there levels left to descend into?
    pub fn should_continue(&self) -> (b: bool)
        ensures
            b == (self.level > 0),
    {
        self.level > 0
    }

    /// The drawing color at this state: the base color faded by the
    /// remaining level count.
    pub fn color(&self, base: Color) -> (c: Color)
        ensures
            c == spec_fade(base, self.level),
    {
        proof {
            assert((self.level as u64) * (FADE_PER_LEVEL as u64) <= u32::MAX * 255)
                by (nonlinear_arith)
                requires
                    self.level <= u32::MAX,
                    FADE_PER_LEVEL <= 255,
            ;
        }
        let fade = (self.level as u64) * (FADE_PER_LEVEL as u64);
        if (base.r as u64) > fade {
            Color { r: (base.r as u64 - fade) as u8, g: base.g, b: base.b, a: base.a }
        } else {
            Color { r: 0, g: base.g, b: base.b, a: base.a }
        }
    }
}

/// The one primitive a node emits: a filled terminal square of side
/// `radius * 3 / 2` when no levels are left, else an outlined structural
/// circle of size `radius`; in both cases at the node's canvas position,
/// in the faded color.
pub open spec fn spec_node_prim(st: Recursion, cur: Pos, color: Color, canvas: Rect) -> Primitive {
    if st.level == 0 {
        (Primitive {
            shape: Shape::Square,
            pos: spec_to_rect(cur, canvas),
            size: (st.radius * 3 / 2) as u64,
            color: spec_fade(color, 0),
            filled: true,
        })
    } else {
        (Primitive {
            shape: Shape::Circle,
            pos: spec_to_rect(cur, canvas),
            size: st.radius,
            color: spec_fade(color, st.level),
            filled: false,
        })
    }
}

/// Every anchor coordinate lies under `NORM_LIMIT`.
pub open spec fn anchors_in_range(s: Seq<Pos>) -> bool {
    forall|i: int| 0 <= i < s.len() ==> (#[trigger] s[i]).x <= NORM_LIMIT && s[i].y <= NORM_LIMIT
}

/// The invariant tying a node's position to its shrink denominator: the
/// offsets still to come total at most `NORM_LIMIT / den`, so a position
/// obeying this bound never leaves `[0, 2 * NORM_LIMIT]`.
pub open spec fn spread_ok(cur: Pos, den: u64) -> bool {
    &&& den >= 2
    &&& cur.x * den + NORM_LIMIT <= 2 * NORM_LIMIT * den
    &&& cur.y * den + NORM_LIMIT <= 2 * NORM_LIMIT * den
}

/// The nest transform: the child instance for sibling anchor `q` sits at
/// `current + q * scale`, where the scale is `1 / den`.
pub open spec fn spec_child_pos(cur: Pos, q: Pos, den: u64) -> Pos {
    (Pos { x: (cur.x + q.x / den) as u64, y: (cur.y + q.y / den) as u64 })
}

/// One node of the expansion: what it emits, the budget afterwards, and
/// whether the ceiling was hit.  A node first checks the budget (aborting
/// without emitting if it is spent), then emits its one primitive, then, with
/// levels left, expands one child per anchor.
pub open spec fn spec_node(
    anchors: Seq<Pos>,
    selected: Option<usize>,
    st: Recursion,
    cur: Pos,
    color: Color,
    canvas: Rect,
    budget: nat,
    ceiling: nat,
) -> (Seq<Primitive>, nat, bool)
    decreases st.level, 0nat, 0nat,
{
    if budget >= ceiling {
        (Seq::<Primitive>::empty(), budget, true)
    } else if st.level == 0 {
        (seq![spec_node_prim(st, cur, color, canvas)], budget + 1, false)
    } else {
        let r = spec_children(
            anchors,
            selected,
            spec_reduce(st),
            cur,
            color,
            canvas,
            0,
            budget + 1,
            ceiling,
        );
        (seq![spec_node_prim(st, cur, color, canvas)] + r.0, r.1, r.2)
    }
}

/// The children of one node, from sibling index `j` on: each child is a node
/// of its own at the nested position, in the parent's color unless the
/// sibling is the selected anchor, whose subtree is highlighted.  An abort
/// inside a child cuts the remaining siblings off.
pub open spec fn spec_children(
    anchors: Seq<Pos>,
    selected: Option<usize>,
    st: Recursion,
    cur: Pos,
    color: Color,
    canvas: Rect,
    j: int,
    budget: nat,
    ceiling: nat,
) -> (Seq<Primitive>, nat, bool)
    decreases st.level, 1nat, anchors.len() - j,
{
    if j < 0 || j >= anchors.len() {
        (Seq::<Primitive>::empty(), budget, false)
    } else {
        let ccolor = if spec_same(selected, j) {
            strong_color()
        } else {
            color
        };
        let cpos = spec_child_pos(cur, anchors[j], st.den);
        let r1 = spec_node(anchors, selected, st, cpos, ccolor, canvas, budget, ceiling);
        if r1.2 {
            r1
        } else {
            let r2 = spec_children(anchors, selected, st, cur, color, canvas, j + 1, r1.1, ceiling);
            (r1.0 + r2.0, r2.1, r2.2)
        }
    }
}

/// A position obeying the spread invariant stays inside `[0, 2 * NORM_LIMIT]`,
/// comfortably inside the coordinate maps' range.
proof fn lemma_spread_in_range(cur: Pos, den: u64)
    requires
        spread_ok(cur, den),
    ensures
        cur.x < 2 * NORM_LIMIT,
        cur.y < 2 * NORM_LIMIT,
        pos_in_range(cur),
{
    assert(cur.x < 2 * NORM_LIMIT && cur.y < 2 * NORM_LIMIT) by (nonlinear_arith)
        requires
            den >= 2,
            cur.x * den + NORM_LIMIT <= 2 * NORM_LIMIT * den,
            cur.y * den + NORM_LIMIT <= 2 * NORM_LIMIT * den,
    ;
}

/// The invariant a parent position must meet so that every child spawned
/// with denominator `den` obeys the spread invariant: there is room for one
/// more full sibling offset.
pub open spec fn nest_room(cur: Pos, den: u64) -> bool {
    &&& den >= 2
    &&& cur.x * den + 2 * NORM_LIMIT <= 2 * NORM_LIMIT * den
    &&& cur.y * den + 2 * NORM_LIMIT <= 2 * NORM_LIMIT * den
}

/// Nesting a sibling offset under a parent with room keeps the child inside
/// the spread invariant.
proof fn lemma_nest_step(cur: Pos, q: Pos, den: u64)
    requires
        nest_room(cur, den),
        q.x <= NORM_LIMIT,
        q.y <= NORM_LIMIT,
    ensures
        cur.x + q.x / den < 3 * NORM_LIMIT,
        cur.y + q.y / den < 3 * NORM_LIMIT,
        spread_ok(spec_child_pos(cur, q, den), den),
{
    vstd::arithmetic::div_mod::lemma_div_pos_is_pos(q.x as int, den as int);
    vstd::arithmetic::div_mod::lemma_remainder_lower(q.x as int, den as int);
    vstd::arithmetic::div_mod::lemma_div_pos_is_pos(q.y as int, den as int);
    vstd::arithmetic::div_mod::lemma_remainder_lower(q.y as int, den as int);
    let fx = (q.x / den) as int;
    let fy = (q.y / den) as int;
    assert((cur.x + fx) * den + NORM_LIMIT <= 2 * NORM_LIMIT * den && cur.x + fx < 3 * NORM_LIMIT)
        by (nonlinear_arith)
        requires
            den >= 2,
            cur.x * den + 2 * NORM_LIMIT <= 2 * NORM_LIMIT * den,
            0 <= fx,
            fx * den <= q.x,
            q.x <= NORM_LIMIT,
    ;
    assert((cur.y + fy) * den + NORM_LIMIT <= 2 * NORM_LIMIT * den && cur.y + fy < 3 * NORM_LIMIT)
        by (nonlinear_arith)
        requires
            den >= 2,
            cur.y * den + 2 * NORM_LIMIT <= 2 * NORM_LIMIT * den,
            0 <= fy,
            fy * den <= q.y,
            q.y <= NORM_LIMIT,
    ;
}

/// A node obeying the spread invariant has room to spawn children at the
/// next (halved, hence doubled-denominator) scale.
proof fn lemma_node_to_room(cur: Pos, den: u64)
    requires
        spread_ok(cur, den),
    ensures
        nest_room(cur, spec_next_den(den)),
{
    let d2 = spec_next_den(den);
    if den <= u64::MAX / 2 {
        assert(cur.x * d2 + 2 * NORM_LIMIT <= 2 * NORM_LIMIT * d2 && cur.y * d2 + 2 * NORM_LIMIT
            <= 2 * NORM_LIMIT * d2) by (nonlinear_arith)
            requires
                den >= 2,
                d2 == 2 * den,
                cur.x * den + NORM_LIMIT <= 2 * NORM_LIMIT * den,
                cur.y * den + NORM_LIMIT <= 2 * NORM_LIMIT * den,
        ;
    } else {
        lemma_spread_in_range(cur, den);
        assert(cur.x * d2 + 2 * NORM_LIMIT <= 2 * NORM_LIMIT * d2 && cur.y * d2 + 2 * NORM_LIMIT
            <= 2 * NORM_LIMIT * d2) by (nonlinear_arith)
            requires
                d2 == u64::MAX,
                cur.x < 2 * NORM_LIMIT,
                cur.y < 2 * NORM_LIMIT,
                2 * NORM_LIMIT <= d2,
        ;
    }
}

/// Expands one node: emits its primitive and its whole subtree into `out`,
/// counting each primitive against the budget, and reports `BudgetExceeded`
/// the moment the ceiling is reached; what it emits, the final budget and
/// the outcome are exactly those of `spec_node`.
pub fn expand_node(
    anchors: &Vec<Pos>,
    selected: Option<usize>,
    st: Recursion,
    cur: Pos,
    color: Color,
    canvas: Rect,
    budget: &mut u64,
    ceiling: u64,
    out: &mut Vec<Primitive>,
) -> (r: Result<(), BudgetExceeded>)
    requires
        anchors_in_range(anchors@),
        rect_in_range(canvas),
        spread_ok(cur, st.den),
        st.radius <= RADIUS_PX,
        *old(budget) <= ceiling,
    ensures
        ({
            let t = spec_node(
                anchors@,
                selected,
                st,
                cur,
                color,
                canvas,
                *old(budget) as nat,
                ceiling as nat,
            );
            &&& final(out)@ == old(out)@ + t.0
            &&& *final(budget) == t.1
            &&& *final(budget) <= ceiling
            &&& (r is Err <==> t.2)
        }),
    decreases st.level, 0nat,
{
    if *budget >= ceiling {
        proof {
            assert(old(out)@ + Seq::<Primitive>::empty() =~= old(out)@);
        }
        return Err(BudgetExceeded);
    }
    proof {
        lemma_spread_in_range(cur, st.den);
    }
    let pos = normalized_to_rect(cur, canvas);
    let faded = st.color(color);
    let prim = if st.level == 0 {
        Primitive { shape: Shape::Square, pos, size: st.radius * 3 / 2, color: faded, filled: true }
    } else {
        Primitive { shape: Shape::Circle, pos, size: st.radius, color: faded, filled: false }
    };
    assert(prim == spec_node_prim(st, cur, color, canvas));
    out.push(prim);
    *budget = *budget + 1;
    if st.level == 0 {
        proof {
            assert(final(out)@ =~= old(out)@ + seq![prim]);
        }
        return Ok(());
    }
    let mut child_st = st;
    child_st.reduce();
    proof {
        lemma_node_to_room(cur, st.den);
    }
    let res = expand_children(
        anchors,
        selected,
        child_st,
        cur,
        color,
        canvas,
        budget,
        ceiling,
        out,
    );
    proof {
        let full = spec_children(
            anchors@,
            selected,
            child_st,
            cur,
            color,
            canvas,
            0,
            *old(budget) as nat + 1,
            ceiling as nat,
        );
        assert(old(out)@ + (seq![prim] + full.0) =~= (old(out)@ + seq![prim]) + full.0);
    }
    res
}

/// Expands the children of one node, one per anchor, from sibling index 0 on;
/// each child sits at the nested position for its anchor and is highlighted
/// when its anchor is the selected one.  What the children emit, the final
/// budget and the outcome are exactly those of `spec_children`.
pub fn expand_children(
    anchors: &Vec<Pos>,
    selected: Option<usize>,
    st: Recursion,
    cur: Pos,
    color: Color,
    canvas: Rect,
    budget: &mut u64,
    ceiling: u64,
    out: &mut Vec<Primitive>,
) -> (r: Result<(), BudgetExceeded>)
    requires
        anchors_in_range(anchors@),
        rect_in_range(canvas),
        nest_room(cur, st.den),
        st.radius <= RADIUS_PX,
        *old(budget) <= ceiling,
    ensures
        ({
            let t = spec_children(
                anchors@,
                selected,
                st,
                cur,
                color,
                canvas,
                0,
                *old(budget) as nat,
                ceiling as nat,
            );
            &&& final(out)@ == old(out)@ + t.0
            &&& *final(budget) == t.1
            &&& *final(budget) <= ceiling
            &&& (r is Err <==> t.2)
        }),
    decreases st.level, 1nat,
{
    let mut j: usize = 0;
    while j < anchors.len()
        invariant
            anchors_in_range(anchors@),
            rect_in_range(canvas),
            nest_room(cur, st.den),
            st.radius <= RADIUS_PX,
            *budget <= ceiling,
            j <= anchors.len(),
            ({
                let full = spec_children(
                    anchors@,
                    selected,
                    st,
                    cur,
                    color,
                    canvas,
                    0,
                    *old(budget) as nat,
                    ceiling as nat,
                );
                let rem = spec_children(
                    anchors@,
                    selected,
                    st,
                    cur,
                    color,
                    canvas,
                    j as int,
                    *budget as nat,
                    ceiling as nat,
                );
                &&& out@ + rem.0 == old(out)@ + full.0
                &&& rem.1 == full.1
                &&& rem.2 == full.2
            }),
        decreases anchors.len() - j,
    {
        let q = anchors[j];
        let ccolor = if same(selected, j) {
            Color { r: 204, g: 204, b: 51, a: 178 }
        } else {
            color
        };
        proof {
            lemma_nest_step(cur, q, st.den);
        }
        let cpos = Pos { x: cur.x + q.x / st.den, y: cur.y + q.y / st.den };
        assert(cpos == spec_child_pos(cur, q, st.den));
        let ghost out_before = out@;
        let ghost b_before = *budget as nat;
        let res = expand_node(anchors, selected, st, cpos, ccolor, canvas, budget, ceiling, out);
        let ghost t = spec_node(anchors@, selected, st, cpos, ccolor, canvas, b_before, ceiling as nat);
        if res.is_err() {
            proof {
                let rem_here = spec_children(
                    anchors@,
                    selected,
                    st,
                    cur,
                    color,
                    canvas,
                    j as int,
                    b_before,
                    ceiling as nat,
                );
                assert(rem_here.0 == t.0 && rem_here.1 == t.1 && rem_here.2);
            }
            return Err(BudgetExceeded);
        }
        proof {
            let rem_next = spec_children(
                anchors@,
                selected,
                st,
                cur,
                color,
                canvas,
                j as int + 1,
                *budget as nat,
                ceiling as nat,
            );
            assert(out_before + (t.0 + rem_next.0) =~= (out_before + t.0) + rem_next.0);
        }
        j = j + 1;
    }
    proof {
        assert(out@ + Seq::<Primitive>::empty() =~= out@);
    }
    Ok(())
}


/// The reduced state an anchor's expansion starts from: one level already
/// consumed, the scale halved once, the radius shrunk once.
pub open spec fn spec_root_state(depth: u32) -> Recursion {
    (Recursion {
        level: if depth == 0 {
            0
        } else {
            (depth - 1) as u32
        },
        den: 2,
        radius: (RADIUS_PX * 3 / 4) as u64,
    })
}

/// One anchor's whole expansion: at depth 0 a single terminal node at the
/// anchor itself, at depth 1 or more one child subtree per anchor.
pub open spec fn spec_expand(
    anchors: Seq<Pos>,
    selected: Option<usize>,
    depth: u32,
    p: Pos,
    base: Color,
    canvas: Rect,
    budget: nat,
    ceiling: nat,
) -> (Seq<Primitive>, nat, bool) {
    if depth == 0 {
        spec_node(anchors, selected, spec_root_state(depth), p, base, canvas, budget, ceiling)
    } else {
        spec_children(
            anchors,
            selected,
            spec_root_state(depth),
            p,
            base,
            canvas,
            0,
            budget,
            ceiling,
        )
    }
}

/// The settled marker of anchor `i`: one circle at the anchor's editor-panel
/// position, filled and highlighted when the anchor is selected, in the flat
/// fallback color once the budget has run out.
pub open spec fn spec_marker(
    anchors: Seq<Pos>,
    selected: Option<usize>,
    editor: Rect,
    i: int,
    exceeded: bool,
) -> Primitive {
    (Primitive {
        shape: Shape::Circle,
        pos: spec_to_rect(anchors[i], editor),
        size: RADIUS_PX,
        color: if exceeded {
            fallback_color()
        } else if spec_same(selected, i) {
            strong_color()
        } else {
            settled_color()
        },
        filled: spec_same(selected, i),
    })
}

/// The base color of anchor `k`'s subtree: the highlight when selected.
pub open spec fn spec_anchor_base(selected: Option<usize>, k: int) -> Color {
    if spec_same(selected, k) {
        strong_color()
    } else {
        settled_color()
    }
}

/// The render pass from anchor `i` on, given the budget spent so far and
/// whether the ceiling has already been hit: every remaining anchor draws its
/// settled marker, and expands only while the ceiling has not been hit.
pub open spec fn spec_render_anchors(
    anchors: Seq<Pos>,
    selected: Option<usize>,
    depth: u32,
    editor: Rect,
    canvas: Rect,
    i: int,
    budget: nat,
    ceiling: nat,
    exceeded: bool,
) -> (Seq<Primitive>, nat, bool)
    decreases anchors.len() - i,
{
    if i < 0 || i >= anchors.len() {
        (Seq::<Primitive>::empty(), budget, exceeded)
    } else {
        let marker = spec_marker(anchors, selected, editor, i, exceeded);
        if exceeded {
            let rest = spec_render_anchors(
                anchors,
                selected,
                depth,
                editor,
                canvas,
                i + 1,
                budget,
                ceiling,
                true,
            );
            (seq![marker] + rest.0, rest.1, rest.2)
        } else {
            let base = spec_anchor_base(selected, i);
            let e = spec_expand(anchors, selected, depth, anchors[i], base, canvas, budget, ceiling);
            let rest = spec_render_anchors(
                anchors,
                selected,
                depth,
                editor,
                canvas,
                i + 1,
                e.1,
                ceiling,
                e.2,
            );
            (seq![marker] + e.0 + rest.0, rest.1, rest.2)
        }
    }
}

/// One whole render pass: the primitives in drawing order, the number of
/// budget-counted primitives, and whether the ceiling was hit.
pub open spec fn spec_render(
    anchors: Seq<Pos>,
    selected: Option<usize>,
    depth: u32,
    ceiling: nat,
    editor: Rect,
    canvas: Rect,
) -> (Seq<Primitive>, nat, bool) {
    spec_render_anchors(anchors, selected, depth, editor, canvas, 0, 0, ceiling, false)
}

/// The result of one render pass.
pub struct RenderPass {
    /// The primitives, in drawing order: per anchor its settled marker and
    /// then its expansion.
    pub primitives: Vec<Primitive>,
    /// How many primitives were counted against the budget (settled markers
    /// are a fixed overhead and do not count).
    pub counted: u64,
    /// Whether the pass hit the budget ceiling and degraded.
    pub exceeded: bool,
}

/// One full render pass over the anchors: per anchor, in storage order, one
/// settled marker and then the anchor's recursive expansion; every expansion
/// primitive counts against the budget, and once the ceiling is hit the
/// remaining anchors keep their settled markers (in the fallback color) while
/// their expansions are skipped entirely.  The output is exactly
/// `spec_render`.
pub fn render(
    anchors: &Vec<Pos>,
    selected: Option<usize>,
    depth: u32,
    ceiling: u64,
    editor: Rect,
    canvas: Rect,
) -> (out: RenderPass)
    requires
        anchors_in_range(anchors@),
        rect_in_range(editor),
        rect_in_range(canvas),
    ensures
        ({
            let t = spec_render(anchors@, selected, depth, ceiling as nat, editor, canvas);
            &&& out.primitives@ == t.0
            &&& out.counted == t.1
            &&& out.counted <= ceiling
            &&& out.exceeded == t.2
        }),
{
    let mut prims: Vec<Primitive> = Vec::new();
    let mut budget: u64 = 0;
    let mut exceeded: bool = false;
    let mut i: usize = 0;
    while i < anchors.len()
        invariant
            anchors_in_range(anchors@),
            rect_in_range(editor),
            rect_in_range(canvas),
            budget <= ceiling,
            i <= anchors.len(),
            ({
                let full = spec_render_anchors(
                    anchors@,
                    selected,
                    depth,
                    editor,
                    canvas,
                    0,
                    0,
                    ceiling as nat,
                    false,
                );
                let rem = spec_render_anchors(
                    anchors@,
                    selected,
                    depth,
                    editor,
                    canvas,
                    i as int,
                    budget as nat,
                    ceiling as nat,
                    exceeded,
                );
                &&& prims@ + rem.0 == full.0
                &&& rem.1 == full.1
                &&& rem.2 == full.2
            }),
        decreases anchors.len() - i,
    {
        let ghost b_head = budget as nat;
        let ghost ex_head = exceeded;
        let ghost prims_head = prims@;
        let p = anchors[i];
        let is_sel = same(selected, i);
        let base = if is_sel {
            Color { r: 204, g: 204, b: 51, a: 178 }
        } else {
            Color { r: 204, g: 128, b: 51, a: 178 }
        };
        let mcolor = if exceeded {
            Color { r: 255, g: 255, b: 255, a: 255 }
        } else {
            base
        };
        let mpos = normalized_to_rect(p, editor);
        let marker = Primitive {
            shape: Shape::Circle,
            pos: mpos,
            size: RADIUS_PX,
            color: mcolor,
            filled: is_sel,
        };
        assert(marker == spec_marker(anchors@, selected, editor, i as int, exceeded));
        prims.push(marker);
        if exceeded {
            proof {
                let rem_next = spec_render_anchors(
                    anchors@,
                    selected,
                    depth,
                    editor,
                    canvas,
                    i as int + 1,
                    budget as nat,
                    ceiling as nat,
                    true,
                );
                assert(prims_head + (seq![marker] + rem_next.0) =~= (prims_head + seq![marker])
                    + rem_next.0);
            }
        } else {
            let st0 = Recursion {
                level: if depth == 0 {
                    0
                } else {
                    depth - 1
                },
                den: 2,
                radius: RADIUS_PX * 3 / 4,
            };
            assert(st0 == spec_root_state(depth));
            let ghost prims_marked = prims@;
            let res = if depth == 0 {
                expand_node(anchors, selected, st0, p, base, canvas, &mut budget, ceiling, &mut prims)
            } else {
                expand_children(
                    anchors,
                    selected,
                    st0,
                    p,
                    base,
                    canvas,
                    &mut budget,
                    ceiling,
                    &mut prims,
                )
            };
            if res.is_err() {
                exceeded = true;
            }
            proof {
                let e = spec_expand(
                    anchors@,
                    selected,
                    depth,
                    anchors@[i as int],
                    base,
                    canvas,
                    b_head,
                    ceiling as nat,
                );
                let rem_next = spec_render_anchors(
                    anchors@,
                    selected,
                    depth,
                    editor,
                    canvas,
                    i as int + 1,
                    e.1,
                    ceiling as nat,
                    e.2,
                );
                assert(prims@ =~= (prims_head + seq![marker]) + e.0);
                assert(prims_head + ((seq![marker] + e.0) + rem_next.0) =~= ((prims_head
                    + seq![marker]) + e.0) + rem_next.0);
            }
        }
        i = i + 1;
    }
    proof {
        assert(prims@ + Seq::<Primitive>::empty() =~= prims@);
    }
    RenderPass { primitives: prims, counted: budget, exceeded }
}


/// The geometric series `1 + n + n^2 + ... + n^d`: the number of nodes in one
/// expansion subtree whose root still has `d` levels below it.
pub open spec fn geom(n: nat, d: nat) -> nat
    decreases d,
{
    if d == 0 {
        1
    } else {
        1 + n * geom(n, (d - 1) as nat)
    }
}

/// How many primitives one anchor's full expansion demands: a single terminal
/// at depth 0, and `n + n^2 + ... + n^depth` nodes at depth 1 or more.
pub open spec fn expand_demand(n: nat, depth: nat) -> nat {
    if depth == 0 {
        1
    } else {
        n * geom(n, (depth - 1) as nat)
    }
}

/// How many budget-counted primitives one full render pass demands.
pub open spec fn pass_demand(n: nat, depth: nat) -> nat {
    n * expand_demand(n, depth)
}

/// A subtree demands at least its root: `geom(n, d) >= 1`.
proof fn lemma_geom_pos(n: nat, d: nat)
    ensures
        geom(n, d) >= 1,
{
}

/// What one node does to the budget: it spends exactly one unit per emitted
/// primitive, never passes the ceiling, finishes the whole subtree (of
/// `geom(n, level)` nodes) exactly when that fits, and otherwise stops with
/// the budget exactly at the ceiling.
proof fn lemma_node_count(
    anchors: Seq<Pos>,
    selected: Option<usize>,
    st: Recursion,
    cur: Pos,
    color: Color,
    canvas: Rect,
    budget: nat,
    ceiling: nat,
)
    requires
        budget <= ceiling,
    ensures
        ({
            let t = spec_node(anchors, selected, st, cur, color, canvas, budget, ceiling);
            let demand = geom(anchors.len(), st.level as nat);
            &&& t.1 == budget + t.0.len()
            &&& t.1 <= ceiling
            &&& (t.2 <==> budget + demand > ceiling)
            &&& (!t.2 ==> t.0.len() == demand)
            &&& (t.2 ==> t.1 == ceiling)
        }),
    decreases st.level, 0nat,
{
    let n = anchors.len();
    lemma_geom_pos(n, st.level as nat);
    if budget >= ceiling {
    } else if st.level == 0 {
    } else {
        lemma_children_count(
            anchors,
            selected,
            spec_reduce(st),
            cur,
            color,
            canvas,
            0,
            budget + 1,
            ceiling,
        );
        assert((n - 0) * geom(n, (st.level - 1) as nat) == n * geom(n, (st.level - 1) as nat));
    }
}

/// What the children from sibling `j` on do to the budget: they demand
/// `(n - j) * geom(n, level)` primitives in all, spend one unit per emitted
/// primitive, and stop with the budget exactly at the ceiling when the
/// demand does not fit.
proof fn lemma_children_count(
    anchors: Seq<Pos>,
    selected: Option<usize>,
    st: Recursion,
    cur: Pos,
    color: Color,
    canvas: Rect,
    j: int,
    budget: nat,
    ceiling: nat,
)
    requires
        budget <= ceiling,
        0 <= j <= anchors.len(),
    ensures
        ({
            let t = spec_children(anchors, selected, st, cur, color, canvas, j, budget, ceiling);
            let demand = (anchors.len() - j) * geom(anchors.len(), st.level as nat);
            &&& t.1 == budget + t.0.len()
            &&& t.1 <= ceiling
            &&& (t.2 <==> budget + demand > ceiling)
            &&& (!t.2 ==> t.0.len() == demand)
            &&& (t.2 ==> t.1 == ceiling)
        }),
    decreases st.level, 1nat, anchors.len() - j,
{
    let n = anchors.len();
    let g = geom(n, st.level as nat);
    lemma_geom_pos(n, st.level as nat);
    if j >= anchors.len() {
        assert((n - j) * g == 0) by (nonlinear_arith)
            requires
                n <= j,
                j <= n,
        ;
    } else {
        let ccolor = if spec_same(selected, j) {
            strong_color()
        } else {
            color
        };
        let cpos = spec_child_pos(cur, anchors[j], st.den);
        lemma_node_count(anchors, selected, st, cpos, ccolor, canvas, budget, ceiling);
        let r1 = spec_node(anchors, selected, st, cpos, ccolor, canvas, budget, ceiling);
        assert((n - j) * g == g + (n - j - 1) * g) by (nonlinear_arith);
        assert((n - j - 1) * g >= 0) by (nonlinear_arith)
            requires
                j < n,
        ;
        if r1.2 {
        } else {
            lemma_children_count(
                anchors,
                selected,
                st,
                cur,
                color,
                canvas,
                j + 1,
                r1.1,
                ceiling,
            );
        }
    }
}

/// What one anchor's expansion does to the budget, in terms of its demand
/// `expand_demand(n, depth)`.
proof fn lemma_expand_count(
    anchors: Seq<Pos>,
    selected: Option<usize>,
    depth: u32,
    p: Pos,
    base: Color,
    canvas: Rect,
    budget: nat,
    ceiling: nat,
)
    requires
        budget <= ceiling,
    ensures
        ({
            let e = spec_expand(anchors, selected, depth, p, base, canvas, budget, ceiling);
            let demand = expand_demand(anchors.len(), depth as nat);
            &&& e.1 == budget + e.0.len()
            &&& e.1 <= ceiling
            &&& (e.2 <==> budget + demand > ceiling)
            &&& (!e.2 ==> e.0.len() == demand)
            &&& (e.2 ==> e.1 == ceiling)
        }),
{
    let n = anchors.len();
    let st0 = spec_root_state(depth);
    if depth == 0 {
        lemma_node_count(anchors, selected, st0, p, base, canvas, budget, ceiling);
    } else {
        lemma_children_count(anchors, selected, st0, p, base, canvas, 0, budget, ceiling);
        assert((n - 0) * geom(n, st0.level as nat) == n * geom(n, (depth - 1) as nat));
    }
}

/// What the pass from anchor `i` on does to the budget: each remaining anchor
/// draws its marker; while the ceiling has not been hit the expansions spend
/// `expand_demand` per anchor until the demand no longer fits, from which
/// point the budget sits exactly at the ceiling.
proof fn lemma_render_anchors_count(
    anchors: Seq<Pos>,
    selected: Option<usize>,
    depth: u32,
    editor: Rect,
    canvas: Rect,
    i: int,
    budget: nat,
    ceiling: nat,
    exceeded: bool,
)
    requires
        budget <= ceiling,
        0 <= i <= anchors.len(),
    ensures
        ({
            let t = spec_render_anchors(
                anchors,
                selected,
                depth,
                editor,
                canvas,
                i,
                budget,
                ceiling,
                exceeded,
            );
            let demand = (anchors.len() - i) * expand_demand(anchors.len(), depth as nat);
            &&& t.0.len() == (anchors.len() - i) + (t.1 - budget)
            &&& t.1 <= ceiling
            &&& (exceeded ==> t.1 == budget && t.2)
            &&& (!exceeded ==> (t.2 <==> budget + demand > ceiling))
            &&& (!exceeded && budget + demand <= ceiling ==> t.1 == budget + demand)
            &&& (!exceeded && budget + demand > ceiling ==> t.1 == ceiling)
        }),
    decreases anchors.len() - i,
{
    let n = anchors.len();
    let ed = expand_demand(n, depth as nat);
    lemma_geom_pos(n, if depth == 0 { 0 } else { (depth - 1) as nat });
    if i >= anchors.len() {
        assert((n - i) * ed == 0) by (nonlinear_arith)
            requires
                n <= i,
                i <= n,
        ;
    } else if exceeded {
        lemma_render_anchors_count(
            anchors,
            selected,
            depth,
            editor,
            canvas,
            i + 1,
            budget,
            ceiling,
            true,
        );
    } else {
        let base = spec_anchor_base(selected, i);
        lemma_expand_count(anchors, selected, depth, anchors[i], base, canvas, budget, ceiling);
        let e = spec_expand(anchors, selected, depth, anchors[i], base, canvas, budget, ceiling);
        lemma_render_anchors_count(
            anchors,
            selected,
            depth,
            editor,
            canvas,
            i + 1,
            e.1,
            ceiling,
            e.2,
        );
        assert((n - i) * ed == ed + (n - i - 1) * ed) by (nonlinear_arith);
        assert(ed <= 1 * ed && (n - i - 1) * ed >= 0 && ((n - i) - 1) * ed >= 1 * ed - ed)
            by (nonlinear_arith)
            requires
                i < n,
                ed >= 0,
        ;
        if e.2 {
            assert(ed >= 1) by {
                if depth != 0 {
                    assert(expand_demand(n, depth as nat) == n * geom(n, (depth - 1) as nat));
                    if n * geom(n, (depth - 1) as nat) == 0 {
                        assert(n == 0 || geom(n, (depth - 1) as nat) == 0) by (nonlinear_arith)
                            requires
                                n * geom(n, (depth - 1) as nat) == 0,
                        ;
                    }
                }
            }
            assert(budget + (n - i) * ed > ceiling) by (nonlinear_arith)
                requires
                    budget + ed > ceiling,
                    (n - i) * ed == ed + (n - i - 1) * ed,
                    (n - i - 1) * ed >= 0,
            ;
        }
    }
}

/// Law: one full render pass is a pure function of its inputs; it emits one
/// settled marker per anchor plus exactly `min(pass_demand, ceiling)` counted
/// primitives, where the demand has the closed form
/// `pass_demand(n, depth) = n * expand_demand(n, depth)`, bounded by
/// `n * (1 + n + n^2 + ... + n^depth)`; it signals the ceiling exactly when
/// the demand passes it, and the counted primitives never pass the ceiling.
pub proof fn lemma_render_budget(
    anchors: Seq<Pos>,
    selected: Option<usize>,
    depth: u32,
    ceiling: nat,
    editor: Rect,
    canvas: Rect,
)
    ensures
        ({
            let t = spec_render(anchors, selected, depth, ceiling, editor, canvas);
            let n = anchors.len();
            let demand = pass_demand(n, depth as nat);
            &&& (t.2 <==> demand > ceiling)
            &&& t.1 == if demand > ceiling {
                ceiling
            } else {
                demand
            }
            &&& t.1 <= ceiling
            &&& t.0.len() == n + t.1
            &&& demand <= n * geom(n, depth as nat)
        }),
{
    let n = anchors.len();
    lemma_render_anchors_count(anchors, selected, depth, editor, canvas, 0, 0, ceiling, false);
    assert((n - 0) * expand_demand(n, depth as nat) == pass_demand(n, depth as nat));
    assert(expand_demand(n, depth as nat) <= geom(n, depth as nat)) by {
        if depth != 0 {
            assert(geom(n, depth as nat) == 1 + n * geom(n, (depth - 1) as nat));
        }
    }
    assert(n * expand_demand(n, depth as nat) <= n * geom(n, depth as nat)) by (nonlinear_arith)
        requires
            expand_demand(n, depth as nat) <= geom(n, depth as nat),
            n >= 0,
    ;
}


/// The terminal primitive anchor `k` draws at depth 0: a filled square at the
/// anchor's own canvas position.
pub open spec fn spec_own_terminal(
    anchors: Seq<Pos>,
    selected: Option<usize>,
    canvas: Rect,
    k: int,
) -> Primitive {
    spec_node_prim(spec_root_state(0), anchors[k], spec_anchor_base(selected, k), canvas)
}

/// The induction behind the depth-0 law: from anchor `i` on, with enough
/// budget left for one terminal per remaining anchor, each anchor contributes
/// exactly its marker and its own terminal.
proof fn lemma_depth_zero_anchors(
    anchors: Seq<Pos>,
    selected: Option<usize>,
    editor: Rect,
    canvas: Rect,
    i: int,
    budget: nat,
    ceiling: nat,
)
    requires
        0 <= i <= anchors.len(),
        budget + (anchors.len() - i) <= ceiling,
    ensures
        ({
            let t = spec_render_anchors(
                anchors,
                selected,
                0,
                editor,
                canvas,
                i,
                budget,
                ceiling,
                false,
            );
            &&& !t.2
            &&& t.1 == budget + (anchors.len() - i)
            &&& t.0.len() == 2 * (anchors.len() - i)
            &&& forall|j: int|
                0 <= j < anchors.len() - i ==> #[trigger] t.0[2 * j] == spec_marker(
                    anchors,
                    selected,
                    editor,
                    i + j,
                    false,
                ) && t.0[2 * j + 1] == spec_own_terminal(anchors, selected, canvas, i + j)
        }),
    decreases anchors.len() - i,
{
    let t = spec_render_anchors(anchors, selected, 0, editor, canvas, i, budget, ceiling, false);
    if i >= anchors.len() {
    } else {
        let marker = spec_marker(anchors, selected, editor, i, false);
        let base = spec_anchor_base(selected, i);
        let e = spec_expand(anchors, selected, 0, anchors[i], base, canvas, budget, ceiling);
        assert(e.0 == seq![spec_own_terminal(anchors, selected, canvas, i)]);
        lemma_depth_zero_anchors(anchors, selected, editor, canvas, i + 1, budget + 1, ceiling);
        let rest = spec_render_anchors(
            anchors,
            selected,
            0,
            editor,
            canvas,
            i + 1,
            budget + 1,
            ceiling,
            false,
        );
        assert forall|j: int| 0 <= j < anchors.len() - i implies #[trigger] t.0[2 * j]
            == spec_marker(anchors, selected, editor, i + j, false) && t.0[2 * j + 1]
            == spec_own_terminal(anchors, selected, canvas, i + j) by {
            if j == 0 {
                assert(t.0[0] == marker);
                assert(t.0[1] == spec_own_terminal(anchors, selected, canvas, i));
            } else {
                assert(t.0[2 * j] == rest.0[2 * (j - 1)]);
                assert(rest.0[2 * (j - 1)] == spec_marker(
                    anchors,
                    selected,
                    editor,
                    (i + 1) + (j - 1),
                    false,
                ));
                assert(t.0[2 * j + 1] == rest.0[2 * (j - 1) + 1]);
            }
        }
    }
}

/// Law: at depth 0 every anchor draws exactly its own settled marker and the
/// terminal primitive at its own canvas position, and no branching occurs:
/// the pass emits exactly two primitives per anchor (given a ceiling with
/// room for one terminal per anchor, which is the demand at depth 0).
pub proof fn lemma_depth_zero(
    anchors: Seq<Pos>,
    selected: Option<usize>,
    ceiling: nat,
    editor: Rect,
    canvas: Rect,
)
    requires
        anchors.len() <= ceiling,
    ensures
        ({
            let t = spec_render(anchors, selected, 0, ceiling, editor, canvas);
            &&& !t.2
            &&& t.1 == anchors.len()
            &&& t.0.len() == 2 * anchors.len()
            &&& forall|k: int|
                0 <= k < anchors.len() ==> #[trigger] t.0[2 * k] == spec_marker(
                    anchors,
                    selected,
                    editor,
                    0 + k,
                    false,
                ) && t.0[2 * k + 1] == spec_own_terminal(anchors, selected, canvas, 0 + k)
            &&& forall|k: int|
                0 <= k < anchors.len() ==> (#[trigger] t.0[2 * k + 1]).pos == spec_to_rect(
                    anchors[k],
                    canvas,
                ) && t.0[2 * k + 1].filled
        }),
{
    lemma_depth_zero_anchors(anchors, selected, editor, canvas, 0, 0, ceiling);
    let t = spec_render(anchors, selected, 0, ceiling, editor, canvas);
    assert forall|k: int| 0 <= k < anchors.len() implies (#[trigger] t.0[2 * k + 1]).pos
        == spec_to_rect(anchors[k], canvas) && t.0[2 * k + 1].filled by {
        assert(t.0[2 * k] == spec_marker(anchors, selected, editor, 0 + k, false));
        assert(t.0[2 * k + 1] == spec_own_terminal(anchors, selected, canvas, 0 + k));
    }
}


/// Law: once the ceiling has been hit, the rest of the pass degrades exactly
/// as promised — every remaining anchor still draws its settled marker, in
/// the flat fallback color, and nothing else: no expansion primitive follows
/// and the budget does not move again.
pub proof fn lemma_degraded_markers(
    anchors: Seq<Pos>,
    selected: Option<usize>,
    depth: u32,
    editor: Rect,
    canvas: Rect,
    i: int,
    budget: nat,
    ceiling: nat,
)
    requires
        0 <= i <= anchors.len(),
    ensures
        ({
            let t = spec_render_anchors(
                anchors,
                selected,
                depth,
                editor,
                canvas,
                i,
                budget,
                ceiling,
                true,
            );
            &&& t.0.len() == anchors.len() - i
            &&& t.1 == budget
            &&& t.2
            &&& forall|k: int|
                0 <= k < anchors.len() - i ==> #[trigger] t.0[k] == spec_marker(
                    anchors,
                    selected,
                    editor,
                    i + k,
                    true,
                )
        }),
    decreases anchors.len() - i,
{
    let t = spec_render_anchors(anchors, selected, depth, editor, canvas, i, budget, ceiling, true);
    if i < anchors.len() {
        lemma_degraded_markers(anchors, selected, depth, editor, canvas, i + 1, budget, ceiling);
        let rest = spec_render_anchors(
            anchors,
            selected,
            depth,
            editor,
            canvas,
            i + 1,
            budget,
            ceiling,
            true,
        );
        assert forall|k: int| 0 <= k < anchors.len() - i implies #[trigger] t.0[k] == spec_marker(
            anchors,
            selected,
            editor,
            i + k,
            true,
        ) by {
            if k == 0 {
                assert(t.0[0] == spec_marker(anchors, selected, editor, i, true));
            } else {
                assert(t.0[k] == rest.0[k - 1]);
                assert(rest.0[k - 1] == spec_marker(anchors, selected, editor, (i + 1) + (k - 1), true));
            }
        }
    }
}

} // verus!
