//! The error taxonomy: fatal format errors of the analyzer's output,
//! failures of the external tools, and the stage a pipeline failure
//! happened in.

use vstd::prelude::*;

verus! {

/// A fatal error of one analysis: the analyzer failed or timed out, its
/// output stream carries an unsupported version, or dependency resolution
/// failed.
#[derive(Debug)]
pub enum ToolError {
    PyreError { stdout: String, stderr: String },
    PyreResultVersionMismatch { got: u32, expected: u32 },
    PyreTimeout,
    UvError { stdout: String, stderr: String },
}

/// The stage a pipeline run failed in, persisted with the report.
#[derive(Debug, Clone, Copy, PartialEq, Eq, Structural)]
pub enum PipelineStage {
    Setup,
    ResolvingDependencies,
    InstallingDependencies,
    PyreSetup,
    Analysis,
    Processing,
    Cleanup,
}

/// An error together with the stage it happened in.
#[derive(Debug)]
pub struct PipelineError {
    pub stage: PipelineStage,
    pub error: String,
}

} // verus!
