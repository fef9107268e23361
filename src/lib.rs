//! Discrete-time agent-based epidemic simulation core.
//!
//! Lengths are integers in the library's length unit, probabilities are
//! integers in parts per million, and every agent draws from a private
//! seeded random stream.

pub mod kinematics;
pub mod rng;
pub mod config;
pub mod age_distribution;
pub mod entity;
pub mod policy;
pub mod hospital;
pub mod simulator;

pub mod laws;
pub mod statistics;
pub mod age_pdf;
