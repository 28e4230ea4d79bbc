//! A recursive nested-point renderer with a hard primitive budget.
//!
//! A user places anchor points in a small editor panel; the library expands
//! those points into a self-similar nested pattern of drawing primitives,
//! derives a score from the point layout, and manages selection, dragging
//! and deletion of the anchors.  All geometry is carried out in fixed-point
//! integer arithmetic: one normalized unit is `geometry::UNIT` ticks.

pub mod geometry;
pub mod layout;
pub mod render;
pub mod score;
pub mod state;
pub mod store;
pub mod target;
