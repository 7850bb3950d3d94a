//! A wrapper for read/write based I/O sources.
//!
//! It pairs a registration with a one-shot registration guard, and makes
//! the two-attempt discipline of asynchronous I/O checkable: try the
//! operation; on would-block, poll readiness (registering the caller's
//! waker); if readiness had arrived, retry the operation once; if even the
//! retry would block — readiness can vanish between sampling and I/O — the
//! caller re-arms its own waker and yields. The operation itself, with its
//! buffers and its payload, stays with the caller.

use vstd::prelude::*;
use crate::ErrorKind;
use crate::reactor::Reactor;
use crate::reactor::registration::Registration;
use crate::reactor::task::{PollReadiness, SlotTable, with_read_armed, with_read_taken,
    with_write_armed, with_write_taken};
use crate::reactor::waker::WakeAction;

verus! {

/// What one attempt of the caller's I/O operation reported.
#[derive(Clone, Copy, Debug, PartialEq, Eq, Structural)]
pub enum OpOutcome {
    /// The operation finished (the caller holds its result).
    Complete,
    /// The source was not ready; the operation would block.
    WouldBlock,
}

/// Outcome of one `try_mut_read` / `try_mut_write` pass.
#[derive(Clone, Copy, Debug, PartialEq, Eq, Structural)]
pub enum TryIo {
    /// The first attempt finished; readiness was never consulted.
    DoneFirst,
    /// Readiness had arrived and the retry finished.
    DoneSecond,
    /// The readiness poll failed.
    Failed(ErrorKind),
    /// The operation is pending. With `rearm`, readiness was reported but
    /// the retry still blocked: the caller wakes its own waker so the
    /// computation comes back and tries again.
    Pending { rearm: bool },
}

/// What to do after an attempt would block, once readiness was consulted.
#[derive(Clone, Copy, Debug, PartialEq, Eq, Structural)]
pub enum TryStep {
    /// The readiness poll failed.
    Failed(ErrorKind),
    /// No readiness: the waker is armed, the computation parks.
    Parked,
    /// Readiness had arrived: try the operation once more.
    RetryNow,
}

/// The outcome of the retry taken after readiness was reported: a finished
/// retry completes the pass; one that still blocks — readiness can vanish
/// between sampling and I/O — yields with the caller's waker re-armed so
/// the computation comes straight back.
pub fn retry_outcome(second_op: OpOutcome) -> (r: TryIo)
    ensures
        r == (if second_op is Complete {
            TryIo::DoneSecond
        } else {
            TryIo::Pending { rearm: true }
        }),
{
    match second_op {
        OpOutcome::Complete => TryIo::DoneSecond,
        OpOutcome::WouldBlock => TryIo::Pending { rearm: true },
    }
}

/// An I/O source wrapped for readiness-driven use: its registration and
/// the one-shot guard that registers on first use.
#[derive(Debug)]
pub struct PollEvented {
    registration: Registration,
    registered: bool,
}

impl PollEvented {
    /// The underlying registration.
    pub closed spec fn registration(&self) -> Registration {
        self.registration
    }

    /// Whether the one-shot registration has run.
    pub closed spec fn is_registered(&self) -> bool {
        self.registered
    }

    /// Wrap a source with the given side masks; registration happens on
    /// first use.
    pub fn new(read_mask: u32, write_mask: u32) -> (r: Self)
        ensures
            !r.is_registered(),
            r.registration().slot() is None,
            r.registration().read_mask() == read_mask,
            r.registration().write_mask() == write_mask,
    {
        PollEvented { registration: Registration::new(read_mask, write_mask), registered: false }
    }

    /// The one-shot registration with the reactor: the first call creates
    /// and queues the task-slot and reports the slot and self-wake action
    /// for the caller's OS registration; later calls do nothing.
    pub fn register(&mut self, reactor: &mut Reactor, table: &mut SlotTable) -> (r: Option<
        (usize, WakeAction),
    >)
        requires
            old(self).registration().slot_ok(old(table)),
            old(reactor).wf(old(table)),
            old(table).slot_count() < usize::MAX,
        ensures
            final(reactor).wf(final(table)),
            final(self).is_registered(),
            final(self).registration().read_mask() == old(self).registration().read_mask(),
            final(self).registration().write_mask() == old(self).registration().write_mask(),
            final(self).registration().slot_ok(final(table)),
            old(self).is_registered() ==> r is None && *final(self) == *old(self)
                && *final(table) == *old(table) && *final(reactor) == *old(reactor),
            !old(self).is_registered() ==> (r matches Some(p) && p.0 == old(table).slot_count()
                && final(self).registration().slot() == Some(p.0) && final(table).slot_count()
                == old(table).slot_count() + 1),
    {
        if self.registered {
            None
        } else {
            let (id, a) = self.registration.register(reactor, table);
            self.registered = true;
            Some((id, a))
        }
    }

    /// The task-slot of the current registration, if any.
    pub fn slot_id(&self) -> (r: Option<usize>)
        ensures
            r == self.registration().slot(),
    {
        self.registration.slot_id()
    }

    /// Poll read readiness of the wrapped source.
    pub fn poll_read_ready(&self, table: &mut SlotTable, reactor_alive: bool) -> (r:
        PollReadiness)
        requires
            self.registration().slot_ok(old(table)),
        ensures
            self.registration().slot() is None ==> r == PollReadiness::Failed(
                ErrorKind::NotRegistered,
            ) && *final(table) == *old(table),
            self.registration().slot() matches Some(id) ==> {
                &&& old(table).slot(id).read_readiness != 0 ==> r == PollReadiness::Ready(
                    old(table).slot(id).read_readiness,
                ) && final(table).slots() == old(table).slots().update(
                    id as int,
                    with_read_taken(old(table).slot(id)),
                )
                &&& old(table).slot(id).read_readiness == 0 ==> final(table).slots() == old(table).slots().update(
                    id as int,
                    with_read_armed(old(table).slot(id)),
                ) && r == (if reactor_alive {
                    PollReadiness::Pending
                } else {
                    PollReadiness::Failed(ErrorKind::ReactorGone)
                })
            },
    {
        self.registration.poll_read_ready(table, reactor_alive)
    }

    /// Poll write readiness of the wrapped source.
    pub fn poll_write_ready(&self, table: &mut SlotTable, reactor_alive: bool) -> (r:
        PollReadiness)
        requires
            self.registration().slot_ok(old(table)),
        ensures
            self.registration().slot() is None ==> r == PollReadiness::Failed(
                ErrorKind::NotRegistered,
            ) && *final(table) == *old(table),
            self.registration().slot() matches Some(id) ==> {
                &&& old(table).slot(id).write_readiness != 0 ==> r == PollReadiness::Ready(
                    old(table).slot(id).write_readiness,
                ) && final(table).slots() == old(table).slots().update(
                    id as int,
                    with_write_taken(old(table).slot(id)),
                )
                &&& old(table).slot(id).write_readiness == 0 ==> final(table).slots() == old(table).slots().update(
                    id as int,
                    with_write_armed(old(table).slot(id)),
                ) && r == (if reactor_alive {
                    PollReadiness::Pending
                } else {
                    PollReadiness::Failed(ErrorKind::ReactorGone)
                })
            },
    {
        self.registration.poll_write_ready(table, reactor_alive)
    }

    /// One pass of a read attempt: try, and on would-block consult read
    /// readiness and maybe retry. `first_op` is the outcome of the
    /// caller's first attempt; `second_op` that of its retry, consulted
    /// only when readiness had arrived.
    pub fn try_mut_read(&self, table: &mut SlotTable, reactor_alive: bool, first_op: OpOutcome, second_op: OpOutcome) -> (r: TryIo)
        requires
            self.registration().slot_ok(old(table)),
            first_op is WouldBlock ==> self.registration().slot() is Some,
        ensures
            first_op is Complete ==> r == TryIo::DoneFirst && *final(table) == *old(table),
            first_op is WouldBlock ==> (self.registration().slot() matches Some(id) ==> {
                &&& old(table).slot(id).read_readiness != 0 ==> final(table).slots() == old(table).slots().update(
                    id as int,
                    with_read_taken(old(table).slot(id)),
                ) && r == (if second_op is Complete {
                    TryIo::DoneSecond
                } else {
                    TryIo::Pending { rearm: true }
                })
                &&& old(table).slot(id).read_readiness == 0 ==> final(table).slots() == old(table).slots().update(
                    id as int,
                    with_read_armed(old(table).slot(id)),
                ) && r == (if reactor_alive {
                    TryIo::Pending { rearm: false }
                } else {
                    TryIo::Failed(ErrorKind::ReactorGone)
                })
            }),
    {
        match first_op {
            OpOutcome::Complete => TryIo::DoneFirst,
            OpOutcome::WouldBlock => {
                match self.registration.poll_read_ready(table, reactor_alive) {
                    PollReadiness::Failed(e) => TryIo::Failed(e),
                    PollReadiness::Pending => TryIo::Pending { rearm: false },
                    PollReadiness::Ready(_) => {
                        match second_op {
                            OpOutcome::Complete => TryIo::DoneSecond,
                            OpOutcome::WouldBlock => TryIo::Pending { rearm: true },
                        }
                    },
                }
            },
        }
    }

    /// The step after a read attempt would block, for callers that learn
    /// the retry's outcome only later: poll read readiness; `RetryNow`
    /// reports that readiness had arrived and the operation is to be tried
    /// once more, with [`retry_outcome`] deciding on its result.
    pub fn try_read_after_block(&self, table: &mut SlotTable, reactor_alive: bool) -> (r:
        TryStep)
        requires
            self.registration().slot_ok(old(table)),
            self.registration().slot() is Some,
        ensures
            self.registration().slot() matches Some(id) ==> {
                &&& old(table).slot(id).read_readiness != 0 ==> r == TryStep::RetryNow && final(table).slots() == old(table).slots().update(
                    id as int,
                    with_read_taken(old(table).slot(id)),
                )
                &&& old(table).slot(id).read_readiness == 0 ==> final(table).slots() == old(table).slots().update(id as int, with_read_armed(old(table).slot(id))) && r == (
                if reactor_alive {
                    TryStep::Parked
                } else {
                    TryStep::Failed(ErrorKind::ReactorGone)
                })
            },
    {
        match self.registration.poll_read_ready(table, reactor_alive) {
            PollReadiness::Failed(e) => TryStep::Failed(e),
            PollReadiness::Pending => TryStep::Parked,
            PollReadiness::Ready(_) => TryStep::RetryNow,
        }
    }

    /// The step after a write attempt would block; symmetric to
    /// [`Self::try_read_after_block`].
    pub fn try_write_after_block(&self, table: &mut SlotTable, reactor_alive: bool) -> (r:
        TryStep)
        requires
            self.registration().slot_ok(old(table)),
            self.registration().slot() is Some,
        ensures
            self.registration().slot() matches Some(id) ==> {
                &&& old(table).slot(id).write_readiness != 0 ==> r == TryStep::RetryNow
                    && final(table).slots() == old(table).slots().update(
                    id as int,
                    with_write_taken(old(table).slot(id)),
                )
                &&& old(table).slot(id).write_readiness == 0 ==> final(table).slots() == old(table).slots().update(id as int, with_write_armed(old(table).slot(id))) && r == (
                if reactor_alive {
                    TryStep::Parked
                } else {
                    TryStep::Failed(ErrorKind::ReactorGone)
                })
            },
    {
        match self.registration.poll_write_ready(table, reactor_alive) {
            PollReadiness::Failed(e) => TryStep::Failed(e),
            PollReadiness::Pending => TryStep::Parked,
            PollReadiness::Ready(_) => TryStep::RetryNow,
        }
    }

    /// One pass of a write attempt; symmetric to [`Self::try_mut_read`].
    pub fn try_mut_write(&self, table: &mut SlotTable, reactor_alive: bool, first_op: OpOutcome, second_op: OpOutcome) -> (r: TryIo)
        requires
            self.registration().slot_ok(old(table)),
            first_op is WouldBlock ==> self.registration().slot() is Some,
        ensures
            first_op is Complete ==> r == TryIo::DoneFirst && *final(table) == *old(table),
            first_op is WouldBlock ==> (self.registration().slot() matches Some(id) ==> {
                &&& old(table).slot(id).write_readiness != 0 ==> final(table).slots() == old(table).slots().update(
                    id as int,
                    with_write_taken(old(table).slot(id)),
                ) && r == (if second_op is Complete {
                    TryIo::DoneSecond
                } else {
                    TryIo::Pending { rearm: true }
                })
                &&& old(table).slot(id).write_readiness == 0 ==> final(table).slots() == old(table).slots().update(
                    id as int,
                    with_write_armed(old(table).slot(id)),
                ) && r == (if reactor_alive {
                    TryIo::Pending { rearm: false }
                } else {
                    TryIo::Failed(ErrorKind::ReactorGone)
                })
            }),
    {
        match first_op {
            OpOutcome::Complete => TryIo::DoneFirst,
            OpOutcome::WouldBlock => {
                match self.registration.poll_write_ready(table, reactor_alive) {
                    PollReadiness::Failed(e) => TryIo::Failed(e),
                    PollReadiness::Pending => TryIo::Pending { rearm: false },
                    PollReadiness::Ready(_) => {
                        match second_op {
                            OpOutcome::Complete => TryIo::DoneSecond,
                            OpOutcome::WouldBlock => TryIo::Pending { rearm: true },
                        }
                    },
                }
            },
        }
    }
}

} // verus!
