//! Integer models of a smoothed yaw/pitch camera rig and of a linear
//! move-to animator, driven once per frame by a host scheduler.
//!
//! Units: positions in millimetres, angles in millidegrees, durations in
//! nanoseconds, blend factors in parts per million.

pub mod animation;
pub mod camera;
pub mod geometry;
