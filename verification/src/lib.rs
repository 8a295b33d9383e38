//! Traceability preprocessing for a chaptered document tree: inline trace
//! markers are numbered hierarchically, rewritten as cross-referencing
//! footnotes, and summarised in per-target trace matrices.

pub mod chars;
pub mod config;
pub mod engine;
pub mod registry;
pub mod scan;
pub mod trace;
