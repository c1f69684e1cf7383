//! The job-control builtins.

pub mod jobs;
pub mod bg;
pub mod fg;
pub mod kill;
