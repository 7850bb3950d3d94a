//! The I/O readiness reactor: it owns the registration bookkeeping and the
//! self-wake, multiplexes OS readiness events onto per-source task-slots,
//! and lets one thread drive the blocking poll.
//!
//! One poll iteration runs as: `start_poll` decides whether a pending
//! self-wake forces a zero timeout; the OS poller runs; every event whose
//! token is not the reserved self-wake token is dispatched by token to its
//! task-slot with `dispatch_event`; `cleanup_tasks` drains the change
//! queue; `finish_poll` resets the self-wake for the next round.

pub mod evented;
pub mod lazy_handle;
pub mod registration;
pub mod task;
pub mod waker;

use vstd::prelude::*;
use crate::mpsc;
use self::task::{SlotTable, Tasks, read_fires, write_fires, after_update};
use self::waker::{ReactorWaker, WakeAction};

verus! {

/// The reserved token of the reactor's own self-wake source.
pub const WAKE_TOKEN: usize = 0;

/// The token under which the OS poller knows task-slot `id`.
pub fn as_token(id: usize) -> (token: usize)
    requires
        id < usize::MAX,
    ensures
        token == id + 1,
        token != WAKE_TOKEN,
{
    id + 1
}

/// The task-slot a token stands for; only meaningful between the OS poll's
/// return and the following change-queue drain, while the live list (or
/// the change queue) still owns the slot.
pub fn from_token(token: usize) -> (id: usize)
    requires
        token != WAKE_TOKEN,
    ensures
        id == token - 1,
{
    token - 1
}

/// Token round-trip: for any task-slot that was registered, the token seen
/// in an OS event reinterprets back to the same slot while the slot is on
/// the reactor's live list.
pub proof fn lemma_token_round_trip(id: usize, live: Seq<usize>)
    requires
        live.contains(id),
        id < usize::MAX,
    ensures
        (id + 1) - 1 == id,
        id + 1 != WAKE_TOKEN,
{
}

/// A reactor: registration bookkeeping plus the self-wake state machine.
/// The task-slot table itself lives outside and survives the reactor, as
/// the slots' owners do.
#[derive(Debug)]
pub struct Reactor {
    tasks: Tasks,
    waker: ReactorWaker,
}

impl Reactor {
    /// The registration bookkeeping.
    pub closed spec fn tasks(&self) -> Tasks {
        self.tasks
    }

    /// The self-wake state machine.
    pub closed spec fn waker(&self) -> ReactorWaker {
        self.waker
    }

    /// The invariants of the bookkeeping against the slot table.
    pub open spec fn wf(&self, table: &SlotTable) -> bool {
        self.tasks().wf(table)
    }

    /// Construct a reactor: no live source, no pending change, the
    /// self-wake idle. The self-wake source itself is registered with the
    /// OS poller under the reserved token by the caller that owns the
    /// poller.
    pub fn new() -> (r: Self)
        ensures
            r.tasks().change_queue() == seq![None::<usize>],
            r.tasks().live_list() == Seq::<usize>::empty(),
            !r.waker().polling(),
            !r.waker().pending(),
    {
        Reactor { tasks: Tasks::new(), waker: ReactorWaker::new() }
    }

    /// A wake aimed at this reactor from any thread.
    pub fn wake(&mut self) -> (a: WakeAction)
        ensures
            final(self).tasks() == old(self).tasks(),
            final(self).waker().pending(),
            final(self).waker().polling() == old(self).waker().polling(),
            a == (if old(self).waker().pending() {
                WakeAction::Coalesced
            } else if old(self).waker().polling() {
                WakeAction::Nudge
            } else {
                WakeAction::Deferred
            }),
    {
        self.waker.wake()
    }

    /// About to enter the OS poll: returns whether a pending self-wake
    /// forces a zero timeout.
    pub fn start_poll(&mut self) -> (zero_timeout: bool)
        ensures
            final(self).tasks() == old(self).tasks(),
            zero_timeout == old(self).waker().pending(),
            final(self).waker().pending() == old(self).waker().pending(),
            final(self).waker().polling() == (old(self).waker().polling() || !old(self).waker().pending()),
    {
        self.waker.start_poll()
    }

    /// The poll iteration is over: reset the self-wake.
    pub fn finish_poll(&mut self)
        ensures
            final(self).tasks() == old(self).tasks(),
            !final(self).waker().pending(),
            !final(self).waker().polling(),
    {
        self.waker.finish_poll()
    }

    /// Dispatch one OS event to the task-slot its token names. The token
    /// must not be the reserved self-wake token, and may only be
    /// reinterpreted while the slot is still owned by the live list or the
    /// change queue. Returns which side wakers to fire.
    pub fn dispatch_event(&mut self, table: &mut SlotTable, token: usize, readiness: u32) -> (fired: (
        bool,
        bool,
    ))
        requires
            old(self).wf(old(table)),
            token != WAKE_TOKEN,
            token - 1 < old(table).slot_count(),
            old(self).tasks().live_list().contains((token - 1) as usize) || mpsc::contains_node(
                old(self).tasks().change_queue(),
                (token - 1) as usize,
            ),
        ensures
            *final(self) == *old(self),
            final(self).wf(final(table)),
            final(table).slots() == old(table).slots().update(
                token - 1,
                after_update(old(table).slot((token - 1) as usize), readiness),
            ),
            fired.0 == read_fires(old(table).slot((token - 1) as usize), readiness),
            fired.1 == write_fires(old(table).slot((token - 1) as usize), readiness),
    {
        let id = from_token(token);
        let fired = table.update_ready(id, readiness);
        proof {
            assert forall|i: int| 0 <= i < self.tasks().change_queue().len() implies #[trigger]
            self.tasks().queue_entry_ok(table, i) by {
                assert(old(self).tasks().queue_entry_ok(old(table), i));
                match self.tasks().change_queue()[i] {
                    Some(s2) => {
                        if s2 != id {
                            assert(table.slots()[s2 as int] == old(table).slots()[s2 as int]);
                        } else {
                            assert(table.slot(s2).queued == old(table).slot(s2).queued);
                        }
                    },
                    None => {},
                }
            }
        }
        fired
    }

    /// Queue slot `id` for addition to the live list (the bookkeeping side
    /// of `register`); the caller also registers the source with the OS
    /// poller under `as_token(id)` and fires the self-wake.
    pub fn add_task(&mut self, table: &mut SlotTable, id: usize) -> (pushed: bool)
        requires
            old(self).wf(old(table)),
            id < old(table).slot_count(),
        ensures
            final(self).wf(final(table)),
            final(self).waker() == old(self).waker(),
            final(self).tasks().live_list() == old(self).tasks().live_list(),
            pushed == (!old(table).slot(id).queued && !old(table).slot(id).deregistered),
            pushed ==> final(self).tasks().change_queue() == old(self).tasks().change_queue().push(Some(id)) && final(table).slots() == old(table).slots().update(
                id as int,
                task::with_queued(old(table).slot(id), true),
            ),
            !pushed ==> final(self).tasks().change_queue() == old(self).tasks().change_queue()
                && final(table).slots() == old(table).slots(),
    {
        self.tasks.add_task(table, id)
    }

    /// Queue slot `id` for removal from the live list (the bookkeeping
    /// side of `deregister`); the caller also deregisters the source from
    /// the OS poller and fires the self-wake.
    pub fn deregister_task(&mut self, table: &mut SlotTable, id: usize) -> (pushed: bool)
        requires
            old(self).wf(old(table)),
            id < old(table).slot_count(),
        ensures
            final(self).wf(final(table)),
            final(self).waker() == old(self).waker(),
            final(self).tasks().live_list() == old(self).tasks().live_list(),
            final(table).slots() == old(table).slots().update(
                id as int,
                task::with_deregistered(old(table).slot(id)),
            ),
            pushed == (!old(table).slot(id).queued && !old(table).slot(id).deregistered),
            pushed ==> final(self).tasks().change_queue() == old(self).tasks().change_queue().push(Some(id)),
            !pushed ==> final(self).tasks().change_queue() == old(self).tasks().change_queue(),
    {
        self.tasks.deregister_task(table, id)
    }

    /// Drain the change queue after the events of one poll iteration have
    /// been dispatched.
    pub fn cleanup_tasks(&mut self, table: &mut SlotTable)
        requires
            old(self).wf(old(table)),
        ensures
            final(self).wf(final(table)),
            final(self).waker() == old(self).waker(),
            final(table).slot_count() == old(table).slot_count(),
            final(self).tasks().change_queue() == seq![None::<usize>],
            final(self).tasks().live_list() == task::apply_changes(
                old(self).tasks().live_list(),
                old(table).dereg_map(),
                old(self).tasks().change_queue(),
            ),
            forall|id: usize|
                id < old(table).slot_count() ==> #[trigger] final(table).slot(id)
                    == task::with_queued(
                    old(table).slot(id),
                    old(table).slot(id).queued && !mpsc::contains_node(
                        old(self).tasks().change_queue(),
                        id,
                    ),
                ),
    {
        self.tasks.cleanup_tasks(table)
    }

    /// Whether slot `id` is on the live list.
    pub fn is_live(&self, id: usize) -> (r: bool)
        ensures
            r == self.tasks().live_list().contains(id),
    {
        self.tasks.live_contains(id)
    }

    /// A fresh reactor's bookkeeping is well formed against any slot
    /// table.
    pub proof fn lemma_new_wf(&self, table: &SlotTable)
        requires
            self.tasks().change_queue() == seq![None::<usize>],
            self.tasks().live_list() == Seq::<usize>::empty(),
        ensures
            self.wf(table),
    {
        self.tasks().lemma_new_wf(table);
    }
}

} // verus!
