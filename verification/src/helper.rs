//! Classifying the outcome of one I/O system call attempt.

use vstd::prelude::*;
use crate::ErrorKind;

verus! {

/// What one attempt of an I/O operation reported.
#[derive(Clone, Copy, Debug, PartialEq, Eq, Structural)]
pub enum SysOutcome {
    /// The operation finished.
    Done,
    /// The syscall was interrupted by a signal.
    Interrupted,
    /// The source is not ready; trying now would block.
    WouldBlock,
    /// A real error.
    Fail(ErrorKind),
}

/// The step an asynchronous I/O loop takes for one outcome.
#[derive(Clone, Copy, Debug, PartialEq, Eq, Structural)]
pub enum AsyncIoStep {
    /// Hand the finished value up.
    Ready,
    /// Retry the operation at once.
    Retry,
    /// Yield: the readiness machinery will wake the computation.
    Yield,
    /// Hand the error up.
    Fail(ErrorKind),
}

/// One step of the interrupt-retrying would-block-yielding I/O loop: an
/// interrupted syscall is retried at once, would-block becomes a yield,
/// everything else surfaces to the caller.
pub fn async_io(outcome: SysOutcome) -> (r: AsyncIoStep)
    ensures
        r == (match outcome {
            SysOutcome::Done => AsyncIoStep::Ready,
            SysOutcome::Interrupted => AsyncIoStep::Retry,
            SysOutcome::WouldBlock => AsyncIoStep::Yield,
            SysOutcome::Fail(e) => AsyncIoStep::Fail(e),
        }),
{
    match outcome {
        SysOutcome::Done => AsyncIoStep::Ready,
        SysOutcome::Interrupted => AsyncIoStep::Retry,
        SysOutcome::WouldBlock => AsyncIoStep::Yield,
        SysOutcome::Fail(e) => AsyncIoStep::Fail(e),
    }
}

} // verus!
