//! A fixed-point predator/prey flocking engine.
//!
//! Positions, velocities, speeds, forces and radii are integers counted in
//! [`vector::SCALE`]-ths of a plane unit, and blending weights in thousandths.
//! Each tick is a pure function of the state before it.
pub mod vector;
pub mod boid;
pub mod steering;
pub mod tick;
pub mod laws;
