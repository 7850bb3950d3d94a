//! Low-level registration of one event source with the reactor.
//!
//! One OS source is registered once; the registration carries two
//! "parallel" sets of ready events, called read and write, split by the
//! masks given at construction. The task-slot of the current registration
//! sits behind a small locked cell; the spin lock guards register and
//! deregister races between threads, a cross-thread detail with no
//! counterpart under a single owner.

use vstd::prelude::*;
use crate::ErrorKind;
use crate::mpsc;
use crate::reactor::Reactor;
use crate::reactor::task::{PollReadiness, SlotState, SlotTable, with_deregistered,
    with_read_armed, with_read_taken, with_write_armed, with_write_taken};
use crate::reactor::waker::WakeAction;

verus! {

/// The locked cell holding the current task-slot of one registration.
#[derive(Debug)]
pub struct TaskState {
    task: Option<usize>,
}

impl TaskState {
    /// The current task-slot, if registered.
    pub closed spec fn slot(&self) -> Option<usize> {
        self.task
    }

    /// An empty cell: not registered.
    pub fn new() -> (r: Self)
        ensures
            r.slot() is None,
    {
        TaskState { task: None }
    }

    /// The current task-slot, if any.
    pub fn get(&self) -> (r: Option<usize>)
        ensures
            r == self.slot(),
    {
        self.task
    }

    /// Take the current task-slot out, leaving the cell empty.
    pub fn take(&mut self) -> (r: Option<usize>)
        ensures
            r == old(self).slot(),
            final(self).slot() is None,
    {
        let r = self.task;
        self.task = None;
        r
    }

    /// Store a task-slot, replacing any previous one.
    pub fn set(&mut self, id: usize)
        ensures
            final(self).slot() == Some(id),
    {
        self.task = Some(id);
    }
}

/// Registration of one event source, with its read and write masks and
/// the task-slot of its current registration.
#[derive(Debug)]
pub struct Registration {
    read_mask: u32,
    write_mask: u32,
    task: TaskState,
}

impl Registration {
    /// The bits belonging to the read side.
    pub closed spec fn read_mask(&self) -> u32 {
        self.read_mask
    }

    /// The bits belonging to the write side.
    pub closed spec fn write_mask(&self) -> u32 {
        self.write_mask
    }

    /// The task-slot of the current registration, if any.
    pub closed spec fn slot(&self) -> Option<usize> {
        self.task.slot()
    }

    /// The current slot names a valid entry of the table.
    pub open spec fn slot_ok(&self, table: &SlotTable) -> bool {
        match self.slot() {
            Some(id) => id < table.slot_count(),
            None => true,
        }
    }

    /// Create a new registration (but do not register it yet). Everything
    /// outside the two masks is ignored on dispatch.
    pub fn new(read_mask: u32, write_mask: u32) -> (r: Self)
        ensures
            r.read_mask() == read_mask,
            r.write_mask() == write_mask,
            r.slot() is None,
    {
        Registration { read_mask, write_mask, task: TaskState::new() }
    }

    /// Whether a task-slot is currently registered.
    pub fn is_registered(&self) -> (r: bool)
        ensures
            r == (self.slot() is Some),
    {
        self.task.get().is_some()
    }

    /// The task-slot of the current registration, if any.
    pub fn slot_id(&self) -> (r: Option<usize>)
        ensures
            r == self.slot(),
    {
        self.task.get()
    }

    /// Return and clear the current read events.
    ///
    /// Fails with `NotRegistered` exactly when no registration is present.
    pub fn clear_read_ready(&self, table: &mut SlotTable) -> (r: Result<u32, ErrorKind>)
        requires
            self.slot_ok(old(table)),
        ensures
            self.slot() is None ==> r == Result::<u32, ErrorKind>::Err(ErrorKind::NotRegistered)
                && *final(table) == *old(table),
            self.slot() matches Some(id) ==> r == Result::<u32, ErrorKind>::Ok(
                old(table).slot(id).read_readiness,
            ) && final(table).slots() == old(table).slots().update(
                id as int,
                with_read_taken(old(table).slot(id)),
            ),
    {
        match self.task.get() {
            None => Err(ErrorKind::NotRegistered),
            Some(id) => Ok(table.take_read_ready(id)),
        }
    }

    /// Return and clear the current write events.
    ///
    /// Fails with `NotRegistered` exactly when no registration is present.
    pub fn clear_write_ready(&self, table: &mut SlotTable) -> (r: Result<u32, ErrorKind>)
        requires
            self.slot_ok(old(table)),
        ensures
            self.slot() is None ==> r == Result::<u32, ErrorKind>::Err(ErrorKind::NotRegistered)
                && *final(table) == *old(table),
            self.slot() matches Some(id) ==> r == Result::<u32, ErrorKind>::Ok(
                old(table).slot(id).write_readiness,
            ) && final(table).slots() == old(table).slots().update(
                id as int,
                with_write_taken(old(table).slot(id)),
            ),
    {
        match self.task.get() {
            None => Err(ErrorKind::NotRegistered),
            Some(id) => Ok(table.take_write_ready(id)),
        }
    }

    /// Check for new read events, registering the caller's waker to be
    /// woken on the next read event if none were pending.
    ///
    /// Fails with `NotRegistered` when no registration is present, and
    /// with `ReactorGone` when the events could only come from a reactor
    /// that is gone.
    pub fn poll_read_ready(&self, table: &mut SlotTable, reactor_alive: bool) -> (r:
        PollReadiness)
        requires
            self.slot_ok(old(table)),
        ensures
            self.slot() is None ==> r == PollReadiness::Failed(ErrorKind::NotRegistered)
                && *final(table) == *old(table),
            self.slot() matches Some(id) ==> {
                &&& old(table).slot(id).read_readiness != 0 ==> r == PollReadiness::Ready(
                    old(table).slot(id).read_readiness,
                ) && final(table).slots() == old(table).slots().update(
                    id as int,
                    with_read_taken(old(table).slot(id)),
                )
                &&& old(table).slot(id).read_readiness == 0 ==> final(table).slots() == old(table).slots().update(
                    id as int,
                    with_read_armed(old(table).slot(id)),
                ) && r == (if reactor_alive {
                    PollReadiness::Pending
                } else {
                    PollReadiness::Failed(ErrorKind::ReactorGone)
                })
            },
    {
        match self.task.get() {
            None => PollReadiness::Failed(ErrorKind::NotRegistered),
            Some(id) => table.poll_read_ready(id, reactor_alive),
        }
    }

    /// Check for new write events, registering the caller's waker to be
    /// woken on the next write event if none were pending.
    ///
    /// Fails with `NotRegistered` when no registration is present (the
    /// error propagates, as on the read side), and with `ReactorGone` when
    /// the events could only come from a reactor that is gone.
    pub fn poll_write_ready(&self, table: &mut SlotTable, reactor_alive: bool) -> (r:
        PollReadiness)
        requires
            self.slot_ok(old(table)),
        ensures
            self.slot() is None ==> r == PollReadiness::Failed(ErrorKind::NotRegistered)
                && *final(table) == *old(table),
            self.slot() matches Some(id) ==> {
                &&& old(table).slot(id).write_readiness != 0 ==> r == PollReadiness::Ready(
                    old(table).slot(id).write_readiness,
                ) && final(table).slots() == old(table).slots().update(
                    id as int,
                    with_write_taken(old(table).slot(id)),
                )
                &&& old(table).slot(id).write_readiness == 0 ==> final(table).slots() == old(table).slots().update(
                    id as int,
                    with_write_armed(old(table).slot(id)),
                ) && r == (if reactor_alive {
                    PollReadiness::Pending
                } else {
                    PollReadiness::Failed(ErrorKind::ReactorGone)
                })
            },
    {
        match self.task.get() {
            None => PollReadiness::Failed(ErrorKind::NotRegistered),
            Some(id) => table.poll_write_ready(id, reactor_alive),
        }
    }

    /// Register the source with a live reactor: any previous registration
    /// is queued for removal first, a fresh task-slot is created with this
    /// registration's masks and queued for the live list, and its
    /// identifier is stored here. The caller registers the source with the
    /// OS poller under `as_token` of the returned slot and performs the
    /// returned self-wake action, so the next poll incorporates the slot.
    pub fn register(&mut self, reactor: &mut Reactor, table: &mut SlotTable) -> (r: (
        usize,
        WakeAction,
    ))
        requires
            old(self).slot_ok(old(table)),
            old(reactor).wf(old(table)),
            old(table).slot_count() < usize::MAX,
        ensures
            final(reactor).wf(final(table)),
            final(self).read_mask() == old(self).read_mask(),
            final(self).write_mask() == old(self).write_mask(),
            final(self).slot() == Some(r.0),
            r.0 == old(table).slot_count(),
            final(table).slot_count() == old(table).slot_count() + 1,
            final(table).slot(r.0) == (SlotState {
                read_mask: old(self).read_mask(),
                write_mask: old(self).write_mask(),
                read_readiness: 0,
                write_readiness: 0,
                read_waker: false,
                write_waker: false,
                queued: true,
                deregistered: false,
            }),
            mpsc::contains_node(final(reactor).tasks().change_queue(), r.0),
    {
        // queue the previous slot, if any, for removal
        match self.task.take() {
            Some(prev) => {
                reactor.deregister_task(table, prev);
            },
            None => {},
        }
        let ghost table_mid = *table;
        let ghost tasks_mid = reactor.tasks();
        let id = table.new_task(self.read_mask, self.write_mask);
        proof {
            // the grown table keeps every queue entry valid and queued
            assert forall|i: int| 0 <= i < reactor.tasks().change_queue().len() implies
            #[trigger] reactor.tasks().queue_entry_ok(table, i) by {
                assert(tasks_mid.queue_entry_ok(&table_mid, i));
                match reactor.tasks().change_queue()[i] {
                    Some(s2) => {
                        assert(s2 < table_mid.slot_count());
                        assert(table.slots()[s2 as int] == table_mid.slots()[s2 as int]);
                    },
                    None => {},
                }
            }
        }
        let pushed = reactor.add_task(table, id);
        let a = reactor.wake();
        proof {
            assert(pushed);
            let q = reactor.tasks().change_queue();
            assert(q[q.len() - 1] == Some(id));
            assert(mpsc::contains_node(q, id));
        }
        self.task.set(id);
        (id, a)
    }

    /// Queue the current registration, if any, for removal from a live
    /// reactor; nothing happens when no registration is present. The
    /// caller deregisters the source from the OS poller and performs the
    /// returned self-wake action.
    pub fn deregister(&mut self, reactor: &mut Reactor, table: &mut SlotTable) -> (a: Option<
        WakeAction,
    >)
        requires
            old(self).slot_ok(old(table)),
            old(reactor).wf(old(table)),
        ensures
            final(reactor).wf(final(table)),
            final(self).slot() is None,
            final(self).read_mask() == old(self).read_mask(),
            final(self).write_mask() == old(self).write_mask(),
            final(table).slot_count() == old(table).slot_count(),
            old(self).slot() is None ==> *final(table) == *old(table) && *final(reactor) == *old(reactor) && a is None,
            old(self).slot() matches Some(id) ==> a is Some && final(table).slots() == old(table).slots().update(
                id as int,
                with_deregistered(old(table).slot(id)),
            ),
    {
        match self.task.take() {
            Some(id) => {
                reactor.deregister_task(table, id);
                Some(reactor.wake())
            },
            None => None,
        }
    }

    /// Only allowed while registered: the bookkeeping of a re-registration
    /// is the token of the current slot, which the caller re-registers
    /// with the OS poller.
    pub fn reregister_slot(&self) -> (id: usize)
        requires
            self.slot() is Some,
        ensures
            Some(id) == self.slot(),
    {
        match self.task.get() {
            Some(id) => id,
            None => {
                proof {
                    assert(false);
                }
                0
            },
        }
    }

    /// Drop the current registration without a reactor: when the reactor
    /// is gone, nothing remains to deregister from.
    pub fn detach(&mut self)
        ensures
            final(self).slot() is None,
            final(self).read_mask() == old(self).read_mask(),
            final(self).write_mask() == old(self).write_mask(),
    {
        let _ = self.task.take();
    }
}

} // verus!
