//! Host integration for the proxy: `pitchfork proxy setup` and `--undo`.
//!
//! The plan is built from a [`model::SetupContext`] that carries every
//! platform fact the steps depend on, so planning is a pure function of it.
pub mod model;
pub mod parts;
pub mod plan;
pub mod undo;
pub mod combine;
pub mod reversal;
pub mod records;
pub mod context;
pub mod caps;
pub mod blocks;
pub mod apply;
pub mod environment;
