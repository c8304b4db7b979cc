//! Core of a class-pollution detector for Python code bases.
//!
//! An external taint analyzer emits per-function taint summaries ("models")
//! and findings ("issues").  This library rebuilds, for every issue, an
//! ordered call chain from taint source to taint sink, classifies each issue
//! by how often the sensitive accessor recurs, filters structurally
//! unreliable findings, and reconciles freshly computed results with a stored
//! report so that human-entered labels survive re-analysis.

pub mod config;
pub mod decimal;
pub mod errors;
pub mod labeling;
pub mod order;
pub mod report;
pub mod results;
pub mod summary;
pub mod taint;
pub mod temp;
pub mod walk;
