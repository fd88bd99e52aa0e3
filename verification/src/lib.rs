//! Origin/region liveness solver for a borrow-checking fact engine.
//!
//! Given a control-flow graph and variable-usage facts, the solver computes,
//! for every program point, which variables are live (their value may still be
//! read or dropped later) and, transitively, which lifetime regions must still
//! be considered active. The computation is a monotone fixpoint over relations
//! of opaque identifiers; universal regions are added as live at every point
//! of the control-flow graph in a final expansion step.

pub mod engine;
pub mod ids;
pub mod laws;
pub mod liveness;
pub mod output;
pub mod relation;
pub mod rules;

pub use ids::{Origin, Point, Variable};
pub use liveness::{compute_live_regions, init_region_live_at, make_universal_region_live};
pub use output::Output;
