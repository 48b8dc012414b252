//! Tuning logic on integer and configuration data: ranking and collapsing
//! of PID recommendations, the PID step sizes, cross-tune convergence
//! suppression, and the advanced-parameter checks.

pub mod advanced;
pub mod convergence;
pub mod ranking;
