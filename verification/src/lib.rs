//! Job control for an interactive Unix shell: the job table, the `jobs`,
//! `bg`, `fg` and `kill` builtins, and the parsing of command lines.

pub mod num;
pub mod text;
pub mod job;
pub mod report;
pub mod cmd;
pub mod signal;
pub mod session;
