//! Core of a real-time herding simulation: a flock of autonomous agents
//! ("sheep") is driven by separation, cohesion, alignment and avoidance
//! forces, integrated once per tick with damping and a speed clamp, and
//! checked for containment in an oriented rectangular pen.
//!
//! All quantities are signed fixed-point numbers: a value `v` stands for
//! the real number `v / SCALE`. This keeps every computation exact and
//! lets each function carry a precise contract.

pub mod barrier;
pub mod common;
pub mod fixed;
pub mod influence;
pub mod pen;
pub mod player;
pub mod sheep;
pub mod simulation;
pub mod vec2;
