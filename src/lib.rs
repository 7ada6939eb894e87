//! Integer flocking simulation: agents steer by separation, alignment and
//! cohesion with their neighbours, with every update proved free of overflow
//! and every velocity proved to stay within the configured speed cap.

pub mod vector;
pub mod config;
pub mod flock;
pub mod spawn;
pub mod laws;
