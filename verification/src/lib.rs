//! Perpendicular corridor-width measurement engine.
//!
//! The engine works in a locally flat metric coordinate system whose unit is
//! one millimeter, held as `i64` values.  All geometric predicates (segment
//! intersection, nearest-hit selection, bounding-box overlap) are computed
//! exactly in integer arithmetic, so every step of the pipeline is a pure,
//! deterministic function of its inputs.

pub mod boundaries;
pub mod engine;
pub mod geom;
pub mod index;
pub mod lanes;
pub mod laws;
pub mod nearest;
pub mod polygon;
pub mod ratings;
pub mod raycast;
pub mod resample;
pub mod roads;
