//! Per-source task-slots and the reactor's change bookkeeping.
//!
//! Each registered source owns one task-slot: its read and write masks,
//! one readiness accumulator and one wake slot per side, and a small state
//! of `queued` and `deregistered` bits with which registration changes
//! travel through the change queue into the reactor's live-source list.
//! Slots are opaque identifiers into a table; the identifier shifted past
//! the reserved self-wake token is the token under which the OS poller
//! knows the source.

use vstd::prelude::*;
use crate::ErrorKind;
use crate::local_dl_list::LocalDLHead;
use crate::mpsc;
use crate::mpsc::{Head, Link};
use crate::seq_util::lemma_remove_value_keeps;

verus! {

/// The state of one per-source task-slot.
#[derive(Clone, Copy, Debug, PartialEq, Eq, Structural)]
pub struct SlotState {
    /// Readiness bits that belong to the read side; immutable after
    /// construction.
    pub read_mask: u32,
    /// Readiness bits that belong to the write side; immutable after
    /// construction.
    pub write_mask: u32,
    /// Read-side readiness accumulated since the last take.
    pub read_readiness: u32,
    /// Write-side readiness accumulated since the last take.
    pub write_readiness: u32,
    /// Whether a waker is registered in the read-side wake slot.
    pub read_waker: bool,
    /// Whether a waker is registered in the write-side wake slot.
    pub write_waker: bool,
    /// Whether the slot currently travels through the change queue.
    pub queued: bool,
    /// Whether the slot is to leave the live list on the next drain.
    pub deregistered: bool,
}

/// `s` with the read accumulator cleared.
pub open spec fn with_read_taken(s: SlotState) -> SlotState {
    SlotState { read_readiness: 0, ..s }
}

/// `s` with the write accumulator cleared.
pub open spec fn with_write_taken(s: SlotState) -> SlotState {
    SlotState { write_readiness: 0, ..s }
}

/// `s` with a waker registered in the read wake slot.
pub open spec fn with_read_armed(s: SlotState) -> SlotState {
    SlotState { read_waker: true, ..s }
}

/// `s` with a waker registered in the write wake slot.
pub open spec fn with_write_armed(s: SlotState) -> SlotState {
    SlotState { write_waker: true, ..s }
}

/// `s` with the queued bit as given.
pub open spec fn with_queued(s: SlotState, queued: bool) -> SlotState {
    SlotState { queued, ..s }
}

/// `s` with both change bits set: deregister on next drain.
pub open spec fn with_deregistered(s: SlotState) -> SlotState {
    SlotState { queued: true, deregistered: true, ..s }
}

/// Whether dispatching `readiness` to a slot in state `s` fires the
/// read-side waker: some read-mask bit must be set and a waker registered.
pub open spec fn read_fires(s: SlotState, readiness: u32) -> bool {
    readiness & s.read_mask != 0 && s.read_waker
}

/// Symmetric to [`read_fires`] for the write side.
pub open spec fn write_fires(s: SlotState, readiness: u32) -> bool {
    readiness & s.write_mask != 0 && s.write_waker
}

/// The slot state after `readiness` has been dispatched to it: each side
/// with a matching bit accumulates its masked bits, and hands its waker
/// out (emptying the wake slot) if one was registered.
pub open spec fn after_update(s: SlotState, readiness: u32) -> SlotState {
    SlotState {
        read_readiness: if readiness & s.read_mask != 0 {
            s.read_readiness | (readiness & s.read_mask)
        } else {
            s.read_readiness
        },
        read_waker: if readiness & s.read_mask != 0 {
            false
        } else {
            s.read_waker
        },
        write_readiness: if readiness & s.write_mask != 0 {
            s.write_readiness | (readiness & s.write_mask)
        } else {
            s.write_readiness
        },
        write_waker: if readiness & s.write_mask != 0 {
            false
        } else {
            s.write_waker
        },
        ..s
    }
}

/// Result of a readiness poll on one side of a source.
#[derive(Clone, Copy, Debug, PartialEq, Eq, Structural)]
pub enum PollReadiness {
    /// The accumulated (and now cleared) readiness bits; never zero.
    Ready(u32),
    /// No readiness; the waker is registered and will be fired.
    Pending,
    /// The poll failed.
    Failed(ErrorKind),
}

/// The table of task-slots. It outlives the reactor: a registration holds
/// on to its slot even after the reactor is gone.
#[derive(Debug)]
pub struct SlotTable {
    slots: Vec<SlotState>,
}

impl SlotTable {
    /// Number of slots handed out so far.
    pub open spec fn slot_count(&self) -> nat {
        self.slots().len()
    }

    /// All slots, by identifier.
    pub closed spec fn slots(&self) -> Seq<SlotState> {
        self.slots@
    }

    /// The state of slot `id`.
    pub open spec fn slot(&self, id: usize) -> SlotState {
        self.slots()[id as int]
    }

    /// The deregistered flag of every slot, by identifier.
    pub closed spec fn dereg_map(&self) -> Seq<bool> {
        self.slots@.map_values(|s: SlotState| s.deregistered)
    }

    /// An empty table.
    pub fn new() -> (r: Self)
        ensures
            r.slot_count() == 0,
    {
        SlotTable { slots: Vec::new() }
    }

    /// Create a task-slot for one source with the given side masks.
    pub fn new_task(&mut self, read_mask: u32, write_mask: u32) -> (id: usize)
        requires
            old(self).slot_count() < usize::MAX,
        ensures
            id == old(self).slot_count(),
            final(self).slot_count() == old(self).slot_count() + 1,
            final(self).slots() == old(self).slots().push(
                SlotState {
                    read_mask,
                    write_mask,
                    read_readiness: 0,
                    write_readiness: 0,
                    read_waker: false,
                    write_waker: false,
                    queued: false,
                    deregistered: false,
                },
            ),
    {
        let id = self.slots.len();
        self.slots.push(
            SlotState {
                read_mask,
                write_mask,
                read_readiness: 0,
                write_readiness: 0,
                read_waker: false,
                write_waker: false,
                queued: false,
                deregistered: false,
            },
        );
        id
    }

    /// Atomically take (return and clear) the read-side accumulator.
    pub fn take_read_ready(&mut self, id: usize) -> (r: u32)
        requires
            id < old(self).slot_count(),
        ensures
            r == old(self).slot(id).read_readiness,
            final(self).slots() == old(self).slots().update(
                id as int,
                with_read_taken(old(self).slot(id)),
            ),
    {
        let s = self.slots[id];
        let r = s.read_readiness;
        self.slots[id] = SlotState { read_readiness: 0, ..s };
        r
    }

    /// Atomically take (return and clear) the write-side accumulator.
    pub fn take_write_ready(&mut self, id: usize) -> (r: u32)
        requires
            id < old(self).slot_count(),
        ensures
            r == old(self).slot(id).write_readiness,
            final(self).slots() == old(self).slots().update(
                id as int,
                with_write_taken(old(self).slot(id)),
            ),
    {
        let s = self.slots[id];
        let r = s.write_readiness;
        self.slots[id] = SlotState { write_readiness: 0, ..s };
        r
    }

    /// Poll the read side of slot `id`: take the accumulator, and if it is
    /// empty register the caller's waker in the read wake slot, re-sample,
    /// and probe the reactor's liveness, so that no readiness arriving
    /// around the registration is lost.
    pub fn poll_read_ready(&mut self, id: usize, reactor_alive: bool) -> (r: PollReadiness)
        requires
            id < old(self).slot_count(),
        ensures
            old(self).slot(id).read_readiness != 0 ==> r == PollReadiness::Ready(
                old(self).slot(id).read_readiness,
            ) && final(self).slots() == old(self).slots().update(
                id as int,
                with_read_taken(old(self).slot(id)),
            ),
            old(self).slot(id).read_readiness == 0 ==> final(self).slots() == old(self).slots().update(id as int, with_read_armed(old(self).slot(id)))
                && r == (if reactor_alive {
                PollReadiness::Pending
            } else {
                PollReadiness::Failed(ErrorKind::ReactorGone)
            }),
    {
        let ready = self.take_read_ready(id);
        if ready != 0 {
            return PollReadiness::Ready(ready);
        }
        let s = self.slots[id];
        self.slots[id] = SlotState { read_waker: true, ..s };
        let ready = self.take_read_ready(id);
        if ready != 0 {
            return PollReadiness::Ready(ready);
        }
        proof {
            assert(final(self).slots() =~= old(self).slots().update(
                id as int,
                with_read_armed(old(self).slot(id)),
            ));
        }
        if !reactor_alive {
            return PollReadiness::Failed(ErrorKind::ReactorGone);
        }
        PollReadiness::Pending
    }

    /// Symmetric to [`Self::poll_read_ready`] for the write side.
    pub fn poll_write_ready(&mut self, id: usize, reactor_alive: bool) -> (r: PollReadiness)
        requires
            id < old(self).slot_count(),
        ensures
            old(self).slot(id).write_readiness != 0 ==> r == PollReadiness::Ready(
                old(self).slot(id).write_readiness,
            ) && final(self).slots() == old(self).slots().update(
                id as int,
                with_write_taken(old(self).slot(id)),
            ),
            old(self).slot(id).write_readiness == 0 ==> final(self).slots() == old(self).slots().update(id as int, with_write_armed(old(self).slot(id)))
                && r == (if reactor_alive {
                PollReadiness::Pending
            } else {
                PollReadiness::Failed(ErrorKind::ReactorGone)
            }),
    {
        let ready = self.take_write_ready(id);
        if ready != 0 {
            return PollReadiness::Ready(ready);
        }
        let s = self.slots[id];
        self.slots[id] = SlotState { write_waker: true, ..s };
        let ready = self.take_write_ready(id);
        if ready != 0 {
            return PollReadiness::Ready(ready);
        }
        proof {
            assert(final(self).slots() =~= old(self).slots().update(
                id as int,
                with_write_armed(old(self).slot(id)),
            ));
        }
        if !reactor_alive {
            return PollReadiness::Failed(ErrorKind::ReactorGone);
        }
        PollReadiness::Pending
    }

    /// Dispatch one OS readiness event to slot `id`: each side accumulates
    /// its masked bits before any waker is handed out, so the woken side
    /// observes every bit of this burst. Returns which side wakers to fire.
    pub fn update_ready(&mut self, id: usize, readiness: u32) -> (fired: (bool, bool))
        requires
            id < old(self).slot_count(),
        ensures
            fired.0 == read_fires(old(self).slot(id), readiness),
            fired.1 == write_fires(old(self).slot(id), readiness),
            final(self).slots() == old(self).slots().update(
                id as int,
                after_update(old(self).slot(id), readiness),
            ),
            readiness & old(self).slot(id).read_mask != 0 ==> after_update(
                old(self).slot(id),
                readiness,
            ).read_readiness != 0,
            readiness & old(self).slot(id).write_mask != 0 ==> after_update(
                old(self).slot(id),
                readiness,
            ).write_readiness != 0,
    {
        let s = self.slots[id];
        let read_bits = readiness & s.read_mask;
        let write_bits = readiness & s.write_mask;
        let fired_read = read_bits != 0 && s.read_waker;
        let fired_write = write_bits != 0 && s.write_waker;
        let updated = SlotState {
            read_readiness: if read_bits != 0 {
                s.read_readiness | read_bits
            } else {
                s.read_readiness
            },
            read_waker: if read_bits != 0 {
                false
            } else {
                s.read_waker
            },
            write_readiness: if write_bits != 0 {
                s.write_readiness | write_bits
            } else {
                s.write_readiness
            },
            write_waker: if write_bits != 0 {
                false
            } else {
                s.write_waker
            },
            ..s
        };
        self.slots[id] = updated;
        proof {
            let rr = s.read_readiness;
            let wr = s.write_readiness;
            assert(read_bits != 0 ==> (rr | read_bits) != 0) by (bit_vector);
            assert(write_bits != 0 ==> (wr | write_bits) != 0) by (bit_vector);
        }
        (fired_read, fired_write)
    }
}

/// No readiness wake is lost between wake-slot registration and
/// accumulator sampling: once a readiness poll has come back pending (so a
/// waker sits in the wake slot and the accumulator is empty), a dispatch
/// whose bits meet the side's mask both fires that waker and leaves the
/// bits in the accumulator for the next poll to observe.
pub proof fn lemma_no_lost_wake(s: SlotState, readiness: u32)
    requires
        s.read_waker,
        s.read_readiness == 0,
        readiness & s.read_mask != 0,
    ensures
        read_fires(s, readiness),
        after_update(s, readiness).read_readiness == readiness & s.read_mask,
        after_update(s, readiness).read_readiness != 0,
{
    let m = s.read_mask;
    assert((0u32 | (readiness & m)) == readiness & m) by (bit_vector);
}

/// The live list and change queue after one drain of the change queue:
/// each drained slot leaves the live list if it was deregistered, and
/// joins it (once) otherwise. Owning the live list is what keeps a slot's
/// token reinterpretable while the OS poller holds it.
pub open spec fn apply_changes(
    live: Seq<usize>,
    deregs: Seq<bool>,
    q: Seq<Option<usize>>,
) -> Seq<usize>
    decreases q.len(),
{
    if q.len() == 0 {
        live
    } else {
        match q[0] {
            None => apply_changes(live, deregs, q.drop_first()),
            Some(id) => {
                let l2 = if id < deregs.len() && deregs[id as int] {
                    live.remove_value(id)
                } else if !live.contains(id) {
                    live.push(id)
                } else {
                    live
                };
                apply_changes(l2, deregs, q.drop_first())
            },
        }
    }
}

/// A stub entry at the tail contributes nothing to a drain.
pub proof fn lemma_apply_skips_tail_stub(live: Seq<usize>, deregs: Seq<bool>, q: Seq<Option<usize>>)
    ensures
        apply_changes(live, deregs, q.push(None)) == apply_changes(live, deregs, q),
    decreases q.len(),
{
    let qp = q.push(None);
    if q.len() == 0 {
        assert(qp[0] is None);
        assert(qp.drop_first() =~= q);
    } else {
        assert(qp[0] == q[0]);
        assert(qp.drop_first() =~= q.drop_first().push(None));
        match q[0] {
            None => {
                lemma_apply_skips_tail_stub(live, deregs, q.drop_first());
            },
            Some(id) => {
                let l2 = if id < deregs.len() && deregs[id as int] {
                    live.remove_value(id)
                } else if !live.contains(id) {
                    live.push(id)
                } else {
                    live
                };
                lemma_apply_skips_tail_stub(l2, deregs, q.drop_first());
            },
        }
    }
}

/// A change queue holding only its stub changes nothing.
pub proof fn lemma_apply_stub_only(live: Seq<usize>, deregs: Seq<bool>)
    ensures
        apply_changes(live, deregs, seq![None::<usize>]) == live,
{
    let q = seq![None::<usize>];
    assert(q.drop_first() =~= Seq::<Option<usize>>::empty());
    assert(apply_changes(live, deregs, Seq::<Option<usize>>::empty()) == live);
    assert(apply_changes(live, deregs, q) == live);
}

/// The reactor's registration bookkeeping: the change queue fed by
/// `register`/`deregister` from any thread, and the live-source list that
/// only the reactor thread touches.
#[derive(Debug)]
pub struct Tasks {
    list: Head,
    local_list: LocalDLHead,
}

impl Tasks {
    /// The change queue (stub entry included).
    pub closed spec fn change_queue(&self) -> Seq<Option<usize>> {
        self.list@
    }

    /// The live-source list.
    pub closed spec fn live_list(&self) -> Seq<usize> {
        self.local_list@
    }

    /// Entry `i` of the change queue names a valid slot whose queued bit
    /// is set.
    pub open spec fn queue_entry_ok(&self, table: &SlotTable, i: int) -> bool {
        match self.change_queue()[i] {
            Some(id) => id < table.slot_count() && table.slot(id).queued,
            None => true,
        }
    }

    /// No slot sits on the change queue twice.
    pub open spec fn queue_no_dup(&self) -> bool {
        forall|i: int, j: int|
            #![trigger self.change_queue()[i], self.change_queue()[j]]
            0 <= i < self.change_queue().len() && 0 <= j < self.change_queue().len() && i != j
                && self.change_queue()[i] is Some ==> self.change_queue()[i]
                != self.change_queue()[j]
    }

    /// The invariants tying the queue, the live list and the slot states
    /// together.
    pub open spec fn wf(&self, table: &SlotTable) -> bool {
        &&& mpsc::one_stub(self.change_queue())
        &&& forall|i: int|
            0 <= i < self.change_queue().len() ==> #[trigger] self.queue_entry_ok(table, i)
        &&& self.queue_no_dup()
        &&& self.live_list().no_duplicates()
        &&& forall|i: int|
            0 <= i < self.live_list().len() ==> (#[trigger] self.live_list()[i])
                < table.slot_count()
    }

    /// Fresh bookkeeping: no live source, no pending change.
    pub fn new() -> (r: Self)
        ensures
            r.change_queue() == seq![None::<usize>],
            r.live_list() == Seq::<usize>::empty(),
    {
        Tasks { list: Head::new(), local_list: LocalDLHead::new() }
    }

    /// Fresh bookkeeping is well formed against any slot table.
    pub proof fn lemma_new_wf(&self, table: &SlotTable)
        requires
            self.change_queue() == seq![None::<usize>],
            self.live_list() == Seq::<usize>::empty(),
        ensures
            self.wf(table),
    {
        assert(mpsc::stub_at(self.change_queue(), 0));
    }

    /// Whether slot `id` is on the live list.
    pub fn live_contains(&self, id: usize) -> (r: bool)
        ensures
            r == self.live_list().contains(id),
    {
        self.local_list.contains(id)
    }

    /// Queue slot `id` for addition to the live list. Only a slot whose
    /// state is clear is queued; one already queued or deregistered is
    /// left alone.
    pub fn add_task(&mut self, table: &mut SlotTable, id: usize) -> (pushed: bool)
        requires
            old(self).wf(old(table)),
            id < old(table).slot_count(),
        ensures
            final(self).wf(final(table)),
            final(self).live_list() == old(self).live_list(),
            pushed == (!old(table).slot(id).queued && !old(table).slot(id).deregistered),
            pushed ==> final(self).change_queue() == old(self).change_queue().push(Some(id))
                && final(table).slots() == old(table).slots().update(
                id as int,
                with_queued(old(table).slot(id), true),
            ),
            !pushed ==> final(self).change_queue() == old(self).change_queue() && final(table).slots() == old(table).slots(),
    {
        let s = table.slots[id];
        if s.queued || s.deregistered {
            return false;
        }
        table.slots[id] = SlotState { queued: true, ..s };
        proof {
            assert(!mpsc::contains_node(self.change_queue(), id)) by {
                if mpsc::contains_node(old(self).change_queue(), id) {
                    let i = choose|i: int|
                        0 <= i < old(self).change_queue().len() && old(self).change_queue()[i]
                            == Some(id);
                    assert(old(self).queue_entry_ok(old(table), i));
                }
            }
        }
        let link = Link::new(id);
        self.list.push(&link);
        proof {
            let qn = self.change_queue();
            let qo = old(self).change_queue();
            assert forall|i: int| 0 <= i < qn.len() implies #[trigger] self.queue_entry_ok(
                table,
                i,
            ) by {
                if i < qo.len() {
                    assert(old(self).queue_entry_ok(old(table), i));
                    assert(qn[i] == qo[i]);
                    match qn[i] {
                        Some(s2) => {
                            assert(table.slots()[s2 as int].queued == old(table).slots()[
                            s2 as int].queued || s2 == id);
                        },
                        None => {},
                    }
                } else {
                    assert(qn[i] == Some(id));
                }
            }
            assert forall|i: int, j: int|
                #![trigger qn[i], qn[j]]
                0 <= i < qn.len() && 0 <= j < qn.len() && i != j && qn[i] is Some implies qn[i]
                != qn[j] by {
                if i < qo.len() && j < qo.len() {
                    assert(qo[i] == qn[i] && qo[j] == qn[j]);
                } else if i < qo.len() && j == qo.len() {
                    if qn[i] == qn[j] {
                        assert(qo[i] == Some(id));
                        assert(mpsc::contains_node(qo, id));
                    }
                } else if i == qo.len() && j < qo.len() {
                    if qn[i] == qn[j] {
                        assert(qo[j] == Some(id));
                        assert(mpsc::contains_node(qo, id));
                    }
                }
            }
        }
        true
    }

    /// Queue slot `id` for removal from the live list: both bits are set,
    /// and the slot travels through the queue once if it was not already
    /// on its way.
    pub fn deregister_task(&mut self, table: &mut SlotTable, id: usize) -> (pushed: bool)
        requires
            old(self).wf(old(table)),
            id < old(table).slot_count(),
        ensures
            final(self).wf(final(table)),
            final(self).live_list() == old(self).live_list(),
            final(table).slots() == old(table).slots().update(
                id as int,
                with_deregistered(old(table).slot(id)),
            ),
            pushed == (!old(table).slot(id).queued && !old(table).slot(id).deregistered),
            pushed ==> final(self).change_queue() == old(self).change_queue().push(Some(id)),
            !pushed ==> final(self).change_queue() == old(self).change_queue(),
    {
        let s = table.slots[id];
        let was_clear = !s.queued && !s.deregistered;
        table.slots[id] = SlotState { queued: true, deregistered: true, ..s };
        proof {
            assert forall|i: int| 0 <= i < self.change_queue().len() implies #[trigger]
            self.queue_entry_ok(table, i) by {
                assert(old(self).queue_entry_ok(old(table), i));
                match self.change_queue()[i] {
                    Some(s2) => {
                        if s2 != id {
                            assert(table.slots()[s2 as int] == old(table).slots()[s2 as int]);
                        }
                    },
                    None => {},
                }
            }
        }
        if !was_clear {
            return false;
        }
        proof {
            assert(!mpsc::contains_node(self.change_queue(), id)) by {
                if mpsc::contains_node(old(self).change_queue(), id) {
                    let i = choose|i: int|
                        0 <= i < old(self).change_queue().len() && old(self).change_queue()[i]
                            == Some(id);
                    assert(old(self).queue_entry_ok(old(table), i));
                }
            }
        }
        let link = Link::new(id);
        self.list.push(&link);
        proof {
            let qn = self.change_queue();
            let qo = old(self).change_queue();
            assert forall|i: int| 0 <= i < qn.len() implies #[trigger] self.queue_entry_ok(
                table,
                i,
            ) by {
                if i < qo.len() {
                    assert(old(self).queue_entry_ok(old(table), i));
                    assert(qn[i] == qo[i]);
                    match qn[i] {
                        Some(s2) => {
                            if s2 != id {
                                assert(table.slots()[s2 as int] == old(table).slots()[s2 as int]);
                            }
                        },
                        None => {},
                    }
                } else {
                    assert(qn[i] == Some(id));
                }
            }
            assert forall|i: int, j: int|
                #![trigger qn[i], qn[j]]
                0 <= i < qn.len() && 0 <= j < qn.len() && i != j && qn[i] is Some implies qn[i]
                != qn[j] by {
                if i < qo.len() && j < qo.len() {
                    assert(qo[i] == qn[i] && qo[j] == qn[j]);
                } else if i < qo.len() && j == qo.len() {
                    if qn[i] == qn[j] {
                        assert(qo[i] == Some(id));
                        assert(mpsc::contains_node(qo, id));
                    }
                } else if i == qo.len() && j < qo.len() {
                    if qn[i] == qn[j] {
                        assert(qo[j] == Some(id));
                        assert(mpsc::contains_node(qo, id));
                    }
                }
            }
        }
        true
    }
    /// Drain the change queue after an event-loop iteration: each drained
    /// slot has its queued bit cleared, leaves the live list if it is
    /// deregistered, and joins the live list (once) otherwise. Only the
    /// reactor thread drains.
    pub fn cleanup_tasks(&mut self, table: &mut SlotTable)
        requires
            old(self).wf(old(table)),
        ensures
            final(self).wf(final(table)),
            final(table).slot_count() == old(table).slot_count(),
            final(self).change_queue() == seq![None::<usize>],
            final(self).live_list() == apply_changes(
                old(self).live_list(),
                old(table).dereg_map(),
                old(self).change_queue(),
            ),
            forall|id: usize|
                id < old(table).slot_count() ==> #[trigger] final(table).slot(id) == with_queued(old(table).slot(id), old(table).slot(id).queued && !mpsc::contains_node(
                        old(self).change_queue(),
                        id,
                    )),
    {
        let ghost deregs = old(table).dereg_map();
        let ghost target = apply_changes(
            old(self).live_list(),
            deregs,
            old(self).change_queue(),
        );
        let ghost mut drained: Seq<usize> = Seq::empty();
        let mut d = self.list.start_pop();
        proof {
            assert(deregs.len() == old(table).slot_count());
            assert forall|i: int| 0 <= i < deregs.len() implies deregs[i] == old(table).slots()[
                i
            ].deregistered by {}
        }
        loop
            invariant_except_break
                self.wf(table),
                d.stub_visits() <= 1,
                table.slot_count() == old(table).slot_count(),
                deregs.len() == old(table).slot_count(),
                forall|i: int| 0 <= i < deregs.len() ==> deregs[i] == old(table).slots()[
                    i
                ].deregistered,
                forall|id: usize|
                    id < old(table).slot_count() ==> #[trigger] table.slot(id) == with_queued(old(table).slot(id), old(table).slot(id).queued && !drained.contains(id)),
                forall|id: usize|
                    mpsc::contains_node(old(self).change_queue(), id) <==> (drained.contains(id)
                        || mpsc::contains_node(self.change_queue(), id)),
                forall|id: usize| drained.contains(id) ==> !mpsc::contains_node(
                    self.change_queue(),
                    id,
                ),
                d.stub_visits() == 1 ==> (self.change_queue().len() >= 1
                    && self.change_queue().last() is None && forall|k: int|
                    0 <= k < self.change_queue().len() - 1
                        ==> (#[trigger] self.change_queue()[k]) is Some),
                apply_changes(self.live_list(), deregs, self.change_queue()) == target,
            ensures
                self.wf(table),
                table.slot_count() == old(table).slot_count(),
                self.change_queue() == seq![None::<usize>],
                self.live_list() == target,
                forall|id: usize|
                    id < old(table).slot_count() ==> #[trigger] table.slot(id) == with_queued(old(table).slot(id), old(table).slot(id).queued && !mpsc::contains_node(
                            old(self).change_queue(),
                            id,
                        )),
            decreases self.change_queue().len(),
        {
            let ghost tasks_top = *self;
            let ghost table_top = *table;
            let ghost drained_o = drained;
            let ghost qo = self.change_queue();
            let ghost live_o = self.live_list();
            let ghost visits_o = d.stub_visits();
            let ghost slots_o = table.slots();
            proof {
                // pin the queue facts to snapshot values before popping
                assert forall|i: int| 0 <= i < qo.len() implies change_ok_in(qo, i, slots_o) by {
                    assert(self.queue_entry_ok(table, i));
                }
                assert forall|i: int, j: int|
                    #![trigger qo[i], qo[j]]
                    0 <= i < qo.len() && 0 <= j < qo.len() && i != j && qo[i] is Some implies qo[i]
                    != qo[j] by {
                    assert(self.change_queue()[i] == qo[i]);
                    assert(self.change_queue()[j] == qo[j]);
                }
            }
            let r = self.list.pop_next(&mut d);
            match r {
                None => {
                    proof {
                        if qo.len() >= 2 {
                            if qo[0] is Some {
                                assert(r is Some);
                            } else if visits_o == 0 {
                                assert(r is Some);
                            } else {
                                assert(qo[0] is Some);
                            }
                        }
                        assert(qo.len() < 2);
                        let w = choose|i: int| mpsc::stub_at(qo, i);
                        assert(mpsc::stub_at(qo, w));
                        assert(qo =~= seq![None::<usize>]);
                        lemma_apply_stub_only(self.live_list(), deregs);
                        assert forall|id: usize|
                            mpsc::contains_node(old(self).change_queue(), id) implies
                        drained.contains(id) by {
                            if mpsc::contains_node(self.change_queue(), id) {
                                let i = choose|i: int|
                                    0 <= i < self.change_queue().len()
                                        && self.change_queue()[i] == Some(id);
                                assert(false);
                            }
                        }
                        assert forall|id: usize| id < old(table).slot_count() implies #[trigger]
                        table.slot(id) == with_queued(old(table).slot(id), old(table).slot(id).queued && !mpsc::contains_node(
                                old(self).change_queue(),
                                id,
                            )) by {
                            assert(table_top.slot(id) == with_queued(old(table).slot(id), old(table).slot(id).queued && !drained.contains(id)));
                            assert(table.slot(id) == table_top.slot(id));
                            if mpsc::contains_node(old(self).change_queue(), id) {
                                assert(drained.contains(id));
                            }
                            if drained.contains(id) {
                                assert(mpsc::contains_node(old(self).change_queue(), id));
                            }
                        }
                        assert forall|i: int| 0 <= i < self.change_queue().len() implies
                        #[trigger] self.queue_entry_ok(table, i) by {
                            assert(change_ok_in(qo, i, slots_o));
                        }
                        assert forall|i: int| 0 <= i < self.live_list().len() implies (#[trigger]
                        self.live_list()[i]) < table.slot_count() by {
                            assert(tasks_top.live_list()[i] < table_top.slot_count());
                        }
                    }
                    break ;
                },
                Some(id) => {
                    let ghost qn = self.change_queue();
                    let ghost k: int = if qo[0] is Some { 0 } else { 1 };
                    proof {
                        if qo[0] is Some {
                            assert(qo[0] == Some(id));
                            assert(qn == qo.drop_first());
                        } else {
                            assert(visits_o == 0);
                            assert(qo[1] == Some(id));
                            assert(qn == qo.subrange(2, qo.len() as int).push(None));
                        }
                        assert(qo[k] == Some(id));
                        assert(change_ok_in(qo, k, slots_o));
                        assert(id < slots_o.len());
                        assert(table.slots() == slots_o);
                        assert(id < table.slot_count());
                    }
                    let s = table.slots[id];
                    table.slots[id] = SlotState { queued: false, ..s };
                    let dereg = table.slots[id].deregistered;
                    if dereg {
                        self.local_list.unlink(id);
                    } else if !self.local_list.contains(id) {
                        self.local_list.append(id);
                    }
                    proof {
                        drained = drained.push(id);
                    }
                    proof {
                        // id appears in qo only at k
                        assert forall|j: int|
                            0 <= j < qo.len() && j != k implies qo[j] != Some(id) by {
                            if qo[j] == Some(id) {
                                assert(qo[j] is Some);
                                assert(qo[j] != qo[k]);
                            }
                        }
                        // node conservation across this pop
                        assert forall|s2: usize|
                            mpsc::contains_node(qo, s2) <==> (s2 == id || mpsc::contains_node(
                                qn,
                                s2,
                            )) by {
                            if mpsc::contains_node(qo, s2) {
                                let i = choose|i: int| 0 <= i < qo.len() && qo[i] == Some(s2);
                                if i != k && s2 != id {
                                    if qo[0] is Some {
                                        assert(qn[i - 1] == Some(s2));
                                    } else {
                                        assert(i >= 2);
                                        assert(qn[i - 2] == Some(s2));
                                    }
                                    assert(mpsc::contains_node(qn, s2));
                                }
                            }
                            if s2 == id {
                                assert(qo[k] == Some(id));
                                assert(mpsc::contains_node(qo, id));
                            }
                            if mpsc::contains_node(qn, s2) {
                                let i = choose|i: int| 0 <= i < qn.len() && qn[i] == Some(s2);
                                if qo[0] is Some {
                                    assert(qo[i + 1] == Some(s2));
                                } else {
                                    assert(i < qn.len() - 1);
                                    assert(qo[i + 2] == Some(s2));
                                }
                                assert(mpsc::contains_node(qo, s2));
                            }
                        }
                        assert(!mpsc::contains_node(qn, id)) by {
                            if mpsc::contains_node(qn, id) {
                                let i = choose|i: int| 0 <= i < qn.len() && qn[i] == Some(id);
                                if qo[0] is Some {
                                    assert(qo[i + 1] == Some(id));
                                } else {
                                    assert(i < qn.len() - 1);
                                    assert(qo[i + 2] == Some(id));
                                }
                            }
                        }
                        // queue entries still name valid queued slots
                        assert forall|i: int| 0 <= i < qn.len() implies #[trigger]
                        self.queue_entry_ok(table, i) by {
                            match qn[i] {
                                Some(s2) => {
                                    if qo[0] is Some {
                                        assert(qo[i + 1] == Some(s2));
                                        assert(change_ok_in(qo, i + 1, slots_o));
                                    } else {
                                        assert(i < qn.len() - 1);
                                        assert(qo[i + 2] == Some(s2));
                                        assert(change_ok_in(qo, i + 2, slots_o));
                                    }
                                    assert(s2 != id);
                                    assert(table.slots()[s2 as int] == slots_o[s2 as int]);
                                },
                                None => {},
                            }
                        }
                        // the queue stays duplicate-free
                        assert forall|i: int, j: int|
                            #![trigger qn[i], qn[j]]
                            0 <= i < qn.len() && 0 <= j < qn.len() && i != j
                                && qn[i] is Some implies qn[i] != qn[j] by {
                            if qn[j] is Some {
                                if qo[0] is Some {
                                    assert(qn[i] == qo[i + 1]);
                                    assert(qn[j] == qo[j + 1]);
                                    assert(qo[i + 1] != qo[j + 1]);
                                } else {
                                    assert(i < qn.len() - 1);
                                    assert(j < qn.len() - 1);
                                    assert(qn[i] == qo[i + 2]);
                                    assert(qn[j] == qo[j + 2]);
                                    assert(qo[i + 2] != qo[j + 2]);
                                }
                            }
                        }
                        // the slot relation, with the new drained set
                        assert forall|s2: usize| s2 < old(table).slot_count() implies #[trigger]
                        table.slot(s2) == with_queued(old(table).slot(s2), old(table).slot(s2).queued && !drained.contains(s2)) by {
                            assert(table_top.slot(s2) == with_queued(old(table).slot(s2), old(table).slot(s2).queued && !drained_o.contains(s2)));
                            if s2 == id {
                                assert(drained[drained.len() - 1] == id);
                                assert(drained.contains(id));
                                assert(table.slot(id).queued == false);
                            } else {
                                assert(table.slots()[s2 as int] == slots_o[s2 as int]);
                                assert(drained.contains(s2) == drained_o.contains(s2)) by {
                                    if drained_o.contains(s2) {
                                        let i = choose|i: int|
                                            0 <= i < drained_o.len() && drained_o[i] == s2;
                                        assert(drained[i] == s2);
                                    }
                                    if drained.contains(s2) {
                                        let i = choose|i: int|
                                            0 <= i < drained.len() && drained[i] == s2;
                                        assert(i < drained_o.len());
                                        assert(drained_o[i] == s2);
                                    }
                                }
                            }
                        }
                        // conservation with the new drained set
                        assert forall|s2: usize|
                            mpsc::contains_node(old(self).change_queue(), s2) <==> (
                        drained.contains(s2) || mpsc::contains_node(self.change_queue(), s2)) by {
                            assert(mpsc::contains_node(old(self).change_queue(), s2) <==> (
                            drained_o.contains(s2) || mpsc::contains_node(qo, s2)));
                            assert(mpsc::contains_node(qo, s2) <==> (s2 == id
                                || mpsc::contains_node(qn, s2)));
                            if s2 == id {
                                assert(drained[drained.len() - 1] == id);
                                assert(drained.contains(id));
                            }
                            if drained_o.contains(s2) {
                                let i = choose|i: int|
                                    0 <= i < drained_o.len() && drained_o[i] == s2;
                                assert(drained[i] == s2);
                                assert(drained.contains(s2));
                            }
                            if drained.contains(s2) && s2 != id {
                                let i = choose|i: int| 0 <= i < drained.len() && drained[i] == s2;
                                assert(i < drained_o.len());
                                assert(drained_o.contains(s2));
                            }
                        }
                        assert forall|s2: usize| drained.contains(s2) implies
                        !mpsc::contains_node(self.change_queue(), s2) by {
                            if s2 == id {
                                assert(!mpsc::contains_node(qn, id));
                            } else if drained.contains(s2) {
                                let i = choose|i: int| 0 <= i < drained.len() && drained[i] == s2;
                                if i < drained_o.len() {
                                    assert(drained_o[i] == s2);
                                    assert(drained_o.contains(s2));
                                    assert(!mpsc::contains_node(qo, s2));
                                    if mpsc::contains_node(qn, s2) {
                                        assert(mpsc::contains_node(qo, s2));
                                    }
                                } else {
                                    assert(drained[i] == id);
                                }
                            }
                        }
                        // the drain target is preserved
                        assert(apply_changes(live_o, deregs, qo) == apply_changes(
                            self.live_list(),
                            deregs,
                            qn,
                        )) by {
                            assert(table_top.slot(id) == with_queued(
                                old(table).slot(id),
                                old(table).slot(id).queued && !drained_o.contains(id),
                            ));
                            assert(slots_o[id as int].deregistered == old(table).slots()[
                            id as int].deregistered);
                            assert(deregs[id as int] == slots_o[id as int].deregistered);
                            assert(table.slot(id).deregistered == slots_o[
                            id as int].deregistered);
                            let l2: Seq<usize> = if id < deregs.len() && deregs[id as int] {
                                live_o.remove_value(id)
                            } else if !live_o.contains(id) {
                                live_o.push(id)
                            } else {
                                live_o
                            };
                            if deregs[id as int] {
                                lemma_remove_value_keeps(live_o, id);
                            }
                            assert(self.live_list() == l2);
                            if qo[0] is Some {
                                assert(apply_changes(live_o, deregs, qo) == apply_changes(
                                    l2,
                                    deregs,
                                    qo.drop_first(),
                                ));
                            } else {
                                assert(apply_changes(live_o, deregs, qo) == apply_changes(
                                    live_o,
                                    deregs,
                                    qo.drop_first(),
                                ));
                                assert(qo.drop_first()[0] == Some(id));
                                assert(apply_changes(live_o, deregs, qo.drop_first())
                                    == apply_changes(l2, deregs, qo.drop_first().drop_first()));
                                lemma_apply_skips_tail_stub(
                                    l2,
                                    deregs,
                                    qo.drop_first().drop_first(),
                                );
                                assert(qo.drop_first().drop_first().push(None) =~= qn);
                            }
                        }
                        // live-list invariants
                        if dereg {
                            lemma_remove_value_keeps(live_o, id);
                            assert forall|i: int| 0 <= i < self.live_list().len() implies (
                            #[trigger] self.live_list()[i]) < table.slot_count() by {
                                assert(live_o.contains(self.live_list()[i]));
                                let j = choose|j: int|
                                    0 <= j < live_o.len() && live_o[j] == self.live_list()[i];
                                assert(tasks_top.live_list()[j] < table_top.slot_count());
                            }
                        } else {
                            assert forall|i: int| 0 <= i < self.live_list().len() implies (
                            #[trigger] self.live_list()[i]) < table.slot_count() by {
                                if i < live_o.len() {
                                    assert(self.live_list()[i] == live_o[i]);
                                    assert(tasks_top.live_list()[i] < table_top.slot_count());
                                } else {
                                    assert(self.live_list()[i] == id);
                                }
                            }
                        }
                        // stub shape bookkeeping for the visit counter
                        if d.stub_visits() == 1 {
                            if visits_o == 0 {
                                assert(mpsc::stub_at(qo, 0));
                                assert forall|k2: int| 0 <= k2 < qn.len() - 1 implies (#[trigger]
                                qn[k2]) is Some by {
                                    if qn[k2] is None {
                                        assert(mpsc::stub_at(qo, k2 + 2));
                                    }
                                }
                            } else {
                                assert forall|k2: int| 0 <= k2 < qn.len() - 1 implies (#[trigger]
                                qn[k2]) is Some by {
                                    assert(qn[k2] == qo[k2 + 1]);
                                }
                            }
                        }
                    }
                },
            }
        }
    }
}

/// The queue-entry invariant, stated of snapshot values.
spec fn change_ok_in(q: Seq<Option<usize>>, i: int, slots: Seq<SlotState>) -> bool {
    match q[i] {
        Some(id) => id < slots.len() && slots[id as int].queued,
        None => true,
    }
}

} // verus!
