//! Belief-propagation core for soft analytical side-channel attacks: the
//! message-passing decisions of each factor and variable update, the class
//! maps of the constant operators, and the shape checks on distributions.

pub mod classes;
pub mod error;
pub mod graph;
pub mod kernels;
pub mod laws;
pub mod schedule;
