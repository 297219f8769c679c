//! Scoring of interoperability test runs.
//!
//! Given a sequence of runs — each a mapping from test identifier to a
//! result with an overall status and optional subtests — the engine
//! computes one integer score per run on a 0–1000 scale, restricted to a
//! designated set of "interop" tests, and collects the identifiers of
//! tests that failed without being pre-declared as allowed to fail.

pub mod laws;
pub mod model;
pub mod score;

pub use model::{Results, Status, SubtestResult};
pub use score::{
    PassCount, RunDelta, RunEntry, ScoreError, ScoreObserver, ScoreOutcome, SilentObserver,
    TestCount, score_run, score_runs, score_runs_observed,
};
