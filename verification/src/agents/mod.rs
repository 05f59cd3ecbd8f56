//! Sub-agents: their views, the done-glow fader, the ambient strip and the
//! live-monitor surface.

pub mod glow;
pub mod model;
pub mod strip;
pub mod surface;
