//! Topological routing of printed circuit boards: the verified core.

pub mod math;
pub mod overlay;
pub mod router;
pub mod rules;
pub mod specctra;
pub mod step;
pub mod stepper;
pub mod weight;
