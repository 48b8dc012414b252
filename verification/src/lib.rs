//! Blackbox log parsing and tuning logic for FPV flight controllers.
//!
//! The library covers the integer and text side of the tuner: header
//! scanning and sample-interval bookkeeping, frame-time semantics, the
//! legacy byte-level frame decoder, field mapping, recommendation ranking,
//! cross-tune convergence suppression and the configuration-only advanced
//! tuning checks.

pub mod text;
pub mod error;
pub mod info_map;
pub mod domain;
pub mod blackbox;
pub mod analysis;
