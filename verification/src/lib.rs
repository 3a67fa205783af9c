//! Verified core of a fleet-scale crate-testing pipeline: a byte-accurate
//! terminal-to-HTML renderer, a transcript classifier that attributes
//! undefined-behavior reports, and the pure decision logic of a bounded
//! worker-pool orchestrator with its storage key scheme.

pub mod aggregate;
pub mod color;
pub mod compress;
pub mod screen;
pub mod diagnose;
pub mod htmldoc;
pub mod model;
pub mod orchestrate;
pub mod plain;
pub mod renderer;
pub mod seqs;
pub mod strutil;
pub mod version_ord;
pub mod styles;
