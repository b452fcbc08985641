//! The engine's error taxonomy.

use vstd::prelude::*;

verus! {

/// Why an evaluation could not produce a verdict.
#[derive(Clone, Copy, Debug, PartialEq, Eq, Structural)]
pub enum EvalError {
    /// The scoring response names an attribute that the configuration does
    /// not: without its threshold no pass/fail decision is possible, so the
    /// current evaluation fails as a whole.
    ConfigMismatch,
    /// Zero attributes were scored. The engine deliberately refuses to
    /// evaluate an empty score set rather than produce undefined statistics;
    /// the caller owns the recovery policy (skip, alert, or abort).
    EmptyScoreSet,
}

} // verus!
