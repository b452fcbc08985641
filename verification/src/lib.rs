//! A message-moderation scoring engine.
//!
//! Given a set of named attribute scores and a configuration of per-attribute
//! thresholds, the engine classifies each attribute as passed or rejected,
//! ranks each class by score, marks the extremal entries of each class,
//! computes aggregate statistics, and decides a single verdict for the whole
//! message. The engine is pure: all I/O (chat gateway, scoring service,
//! configuration files) belongs to the surrounding application.
//!
//! Scores and thresholds are fixed-point values in thousandths: a score of
//! `900` stands for 0.900 and renders as `90.0%`.

pub mod classify;
pub mod config;
pub mod error;
pub mod laws;
pub mod rank;
pub mod render;
pub mod report;
pub mod stats;

pub use classify::{AttributeResult, ScoreEntry};
pub use config::{Config, Markers, ThresholdEntry};
pub use error::EvalError;
pub use render::{render_line, render_lines, render_stats};
pub use report::{evaluate, Report};
pub use stats::Stats;
