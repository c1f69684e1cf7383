//! Signal numbers and the decoding of a `waitpid` status, through `libc`.

use vstd::prelude::*;

verus! {

/// `libc::SIGTERM`: the signal `kill` sends by default. The crate defines
/// it as 15 on Linux.
#[verifier::external_body]
pub(crate) fn default_signal() -> (s: i32)
    ensures
        s == 15,
{
    libc::SIGTERM
}

/// `libc::WIFEXITED`: the crate computes `(status & 0x7f) == 0`.
#[verifier::external_body]
fn wait_exited(status: i32) -> (b: bool)
    ensures
        b == (status & 0x7f == 0),
{
    libc::WIFEXITED(status)
}

/// `libc::WIFSTOPPED`: the crate computes `(status & 0xff) == 0x7f`.
#[verifier::external_body]
fn wait_stopped(status: i32) -> (b: bool)
    ensures
        b == (status & 0xff == 0x7f),
{
    libc::WIFSTOPPED(status)
}

/// `libc::WIFSIGNALED`: the crate computes `((status & 0x7f) + 1) as i8 >= 2`,
/// which holds exactly when the low seven bits are neither 0 nor 0x7f.
#[verifier::external_body]
fn wait_signaled(status: i32) -> (b: bool)
    ensures
        b == (1 <= (status & 0x7f) && (status & 0x7f) <= 126),
{
    libc::WIFSIGNALED(status)
}

/// How a waited-for child ended up, as the shell tells it apart.
#[derive(Clone, Copy, Debug, PartialEq, Eq, Structural)]
pub enum WaitOutcome {
    Exited,
    Stopped,
    Signaled,
    Other,
}

/// The outcome that a `waitpid` status encodes, tested in the shell's order:
/// exited, then stopped, then killed by a signal.
pub open spec fn wait_outcome(status: i32) -> WaitOutcome {
    if status & 0x7f == 0 {
        WaitOutcome::Exited
    } else if status & 0xff == 0x7f {
        WaitOutcome::Stopped
    } else if 1 <= (status & 0x7f) && (status & 0x7f) <= 126 {
        WaitOutcome::Signaled
    } else {
        WaitOutcome::Other
    }
}

/// Decodes a `waitpid` status.
pub fn classify_wait(status: i32) -> (r: WaitOutcome)
    ensures
        r == wait_outcome(status),
{
    if wait_exited(status) {
        WaitOutcome::Exited
    } else if wait_stopped(status) {
        WaitOutcome::Stopped
    } else if wait_signaled(status) {
        WaitOutcome::Signaled
    } else {
        WaitOutcome::Other
    }
}

} // verus!
