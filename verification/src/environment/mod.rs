//! The desktop as the mascot sees it: monitors, other windows, and the surfaces they form.

pub mod surface;
pub mod tracker;

pub use tracker::{EnvironmentTracker, MonitorSource, Rect, WindowSource};
