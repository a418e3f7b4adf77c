//! Search jobs: the decisions of a running job and the table of jobs.
pub mod manager;
pub mod runner;

pub use manager::{JobKind, JobSnapshot, JobStartError, JobStatus, JobTable};
pub use runner::{BatchCompletion, BatchFailure, BatchRun, JobCounters, RunError, RunSettings};
