//! Routers: searches over navigation meshes and their states.

pub mod astar;
pub mod ng;
pub mod thetastar;
pub mod tracer;
