//! Core of a single-threaded asynchronous runtime: a task pool with an
//! intra-thread ready queue and a cross-thread wake queue, an I/O readiness
//! reactor dispatching events to per-source wake slots, and the state
//! machines that let the two nest into one blocking loop.
//!
//! Link nodes of the intrusive lists are opaque identifiers mapped through
//! indirection tables; registration tokens are those identifiers shifted past
//! the reserved self-wake token.

pub mod current;
pub mod helper;
pub mod local_dl_list;
pub mod mpsc;
pub mod pool;
pub mod reactor;
mod seq_util;

use vstd::prelude::*;

verus! {

/// Classification of runtime errors surfaced to callers.
#[derive(Clone, Copy, Debug, PartialEq, Eq, Structural)]
pub enum ErrorKind {
    /// An I/O operation was attempted on a source whose registration is absent.
    NotRegistered,
    /// The reactor behind a weak handle is gone.
    ReactorGone,
    /// A spawner handle was used after its pool was dropped.
    Shutdown,
    /// The OS poller or an I/O syscall failed; propagated verbatim.
    Os,
}

} // verus!
