//! Task bookkeeping of the pool.
//!
//! Every live computation sits on the local-all list; those scheduled for
//! the next round sit on local-ready; wakes from foreign threads coalesce
//! through the global-pending queue, guarded per task by the `queued` flag.
//! Polling a round moves local-ready into a private round list, so that a
//! wake during the round schedules for the next round only, and an aborted
//! round reinstates the not-yet-polled tasks without losing any.

use vstd::prelude::*;
use crate::local_dl_list::LocalDLHead;
use crate::mpsc;
use crate::mpsc::{Head, Link};
use crate::seq_util::lemma_remove_value_keeps;

verus! {

/// Scheduling state of one computation.
#[derive(Clone, Copy, Debug, PartialEq, Eq, Structural)]
pub struct TaskEntry {
    /// Set while the computation is on the local-all list and its internal
    /// state is valid.
    pub alive: bool,
    /// Set while the task sits on the global-pending queue, and permanently
    /// once the task has been cleared, so that it is never enqueued again.
    pub queued: bool,
}

/// What the owning thread appends to local-ready when it drains the
/// global-pending queue: each drained task that is still alive and not
/// already scheduled, in queue order.
pub open spec fn drain_into_ready(
    ready: Seq<usize>,
    round: Seq<usize>,
    alives: Seq<bool>,
    q: Seq<Option<usize>>,
) -> Seq<usize>
    decreases q.len(),
{
    if q.len() == 0 {
        ready
    } else {
        match q[0] {
            None => drain_into_ready(ready, round, alives, q.drop_first()),
            Some(t) => {
                let r2 = if t < alives.len() && alives[t as int] && !ready.contains(t)
                    && !round.contains(t) {
                    ready.push(t)
                } else {
                    ready
                };
                drain_into_ready(r2, round, alives, q.drop_first())
            },
        }
    }
}

/// A stub entry at the tail contributes nothing to a drain.
pub proof fn lemma_drain_skips_tail_stub(
    ready: Seq<usize>,
    round: Seq<usize>,
    alives: Seq<bool>,
    q: Seq<Option<usize>>,
)
    ensures
        drain_into_ready(ready, round, alives, q.push(None)) == drain_into_ready(
            ready,
            round,
            alives,
            q,
        ),
    decreases q.len(),
{
    let qp = q.push(None);
    if q.len() == 0 {
        assert(qp[0] is None);
        assert(qp.drop_first() =~= q);
    } else {
        assert(qp[0] == q[0]);
        assert(qp.drop_first() =~= q.drop_first().push(None));
        match q[0] {
            None => {
                lemma_drain_skips_tail_stub(ready, round, alives, q.drop_first());
            },
            Some(t) => {
                let r2 = if t < alives.len() && alives[t as int] && !ready.contains(t)
                    && !round.contains(t) {
                    ready.push(t)
                } else {
                    ready
                };
                lemma_drain_skips_tail_stub(r2, round, alives, q.drop_first());
            },
        }
    }
}

/// A queue holding only its stub drains nothing into local-ready.
pub proof fn lemma_drain_stub_only(ready: Seq<usize>, round: Seq<usize>, alives: Seq<bool>)
    ensures
        drain_into_ready(ready, round, alives, seq![None::<usize>]) == ready,
{
    let q = seq![None::<usize>];
    assert(q.drop_first() =~= Seq::<Option<usize>>::empty());
    assert(drain_into_ready(ready, round, alives, Seq::<Option<usize>>::empty()) == ready);
    assert(drain_into_ready(ready, round, alives, q) == ready);
}

/// The per-pool task bookkeeping: the arena of task states, the local-all,
/// local-ready and in-progress round lists, and the global-pending queue.
#[derive(Debug)]
pub struct TaskList {
    tasks: Vec<TaskEntry>,
    local_all: LocalDLHead,
    local_ready: LocalDLHead,
    round: LocalDLHead,
    global_pending: Head,
}

impl TaskList {
    /// Number of task slots handed out so far.
    pub closed spec fn task_count(&self) -> nat {
        self.tasks@.len()
    }

    /// State of task `t`.
    pub closed spec fn entry(&self, t: usize) -> TaskEntry {
        self.tasks@[t as int]
    }

    /// The local-all list: every live computation, in spawn order.
    pub closed spec fn all_list(&self) -> Seq<usize> {
        self.local_all@
    }

    /// The local-ready list: computations scheduled for the next round.
    pub closed spec fn ready_list(&self) -> Seq<usize> {
        self.local_ready@
    }

    /// The private list of the round in progress.
    pub closed spec fn round_list(&self) -> Seq<usize> {
        self.round@
    }

    /// The global-pending queue (stub entry included).
    pub closed spec fn pending_queue(&self) -> Seq<Option<usize>> {
        self.global_pending@
    }

    /// The alive flag of every task slot, by task identifier.
    pub closed spec fn alive_map(&self) -> Seq<bool> {
        self.tasks@.map_values(|e: TaskEntry| e.alive)
    }

    /// `t` is a task that is currently alive.
    pub open spec fn task_is_alive(&self, t: usize) -> bool {
        t < self.task_count() && self.entry(t).alive
    }

    /// Entry `i` of the global-pending queue names a valid, queued task.
    pub open spec fn queue_entry_ok(&self, i: int) -> bool {
        match self.pending_queue()[i] {
            Some(t) => t < self.task_count() && self.entry(t).queued,
            None => true,
        }
    }

    /// No task sits on the global-pending queue twice.
    pub open spec fn queue_no_dup(&self) -> bool {
        forall|i: int, j: int|
            #![trigger self.pending_queue()[i], self.pending_queue()[j]]
            0 <= i < self.pending_queue().len() && 0 <= j < self.pending_queue().len() && i != j
                && self.pending_queue()[i] is Some ==> self.pending_queue()[i]
                != self.pending_queue()[j]
    }

    /// The invariants tying the lists, the queue and the task states together.
    pub open spec fn wf(&self) -> bool {
        &&& self.all_list().no_duplicates()
        &&& self.ready_list().no_duplicates()
        &&& self.round_list().no_duplicates()
        &&& self.ready_list().disjoint(self.round_list())
        &&& mpsc::one_stub(self.pending_queue())
        &&& forall|i: int|
            0 <= i < self.all_list().len() ==> (#[trigger] self.all_list()[i])
                < self.task_count()
        &&& forall|t: usize|
            t < self.task_count() ==> ((#[trigger] self.entry(t)).alive
                <==> self.all_list().contains(t))
        &&& forall|i: int|
            0 <= i < self.ready_list().len() ==> self.task_is_alive(
                #[trigger] self.ready_list()[i],
            )
        &&& forall|i: int|
            0 <= i < self.round_list().len() ==> self.task_is_alive(
                #[trigger] self.round_list()[i],
            )
        &&& forall|i: int|
            0 <= i < self.pending_queue().len() ==> #[trigger] self.queue_entry_ok(i)
        &&& self.queue_no_dup()
    }

    /// A fresh, empty task list.
    pub fn new() -> (r: Self)
        ensures
            r.wf(),
            r.task_count() == 0,
            r.all_list() == Seq::<usize>::empty(),
            r.ready_list() == Seq::<usize>::empty(),
            r.round_list() == Seq::<usize>::empty(),
            r.pending_queue() == seq![None::<usize>],
    {
        TaskList {
            tasks: Vec::new(),
            local_all: LocalDLHead::new(),
            local_ready: LocalDLHead::new(),
            round: LocalDLHead::new(),
            global_pending: Head::new(),
        }
    }

    /// Attach a new computation: alive, on local-all, and scheduled on
    /// local-ready so that its first poll happens on the next round.
    ///
    /// Returns the identifier of the new task. Spawning on a live pool
    /// never fails.
    pub fn add_task(&mut self) -> (t: usize)
        requires
            old(self).wf(),
            old(self).task_count() < usize::MAX,
        ensures
            final(self).wf(),
            t == old(self).task_count(),
            final(self).task_count() == old(self).task_count() + 1,
            final(self).entry(t) == (TaskEntry { alive: true, queued: false }),
            forall|s: usize|
                s < old(self).task_count() ==> final(self).entry(s) == old(self).entry(s),
            final(self).all_list() == old(self).all_list().push(t),
            final(self).ready_list() == old(self).ready_list().push(t),
            final(self).round_list() == old(self).round_list(),
            final(self).pending_queue() == old(self).pending_queue(),
    {
        let t = self.tasks.len();
        self.tasks.push(TaskEntry { alive: true, queued: false });
        proof {
            assert(!old(self).all_list().contains(t)) by {
                if old(self).all_list().contains(t) {
                    let i = choose|i: int|
                        0 <= i < old(self).all_list().len() && old(self).all_list()[i] == t;
                    assert(old(self).all_list()[i] < old(self).task_count());
                }
            }
            assert(!old(self).ready_list().contains(t)) by {
                if old(self).ready_list().contains(t) {
                    let i = choose|i: int|
                        0 <= i < old(self).ready_list().len() && old(self).ready_list()[i] == t;
                    assert(old(self).task_is_alive(old(self).ready_list()[i]));
                }
            }
            assert(!old(self).round_list().contains(t)) by {
                if old(self).round_list().contains(t) {
                    let i = choose|i: int|
                        0 <= i < old(self).round_list().len() && old(self).round_list()[i] == t;
                    assert(old(self).task_is_alive(old(self).round_list()[i]));
                }
            }
        }
        self.local_all.append(t);
        self.local_ready.append(t);
        proof {
            assert forall|s: usize| s < self.task_count() implies ((#[trigger] self.entry(
                s,
            )).alive <==> self.all_list().contains(s)) by {
                if s == t {
                    assert(self.all_list()[self.all_list().len() - 1] == t);
                } else {
                    assert(self.entry(s) == old(self).entry(s));
                    assert(self.all_list().contains(s) == old(self).all_list().contains(s)) by {
                        if old(self).all_list().contains(s) {
                            let i = choose|i: int|
                                0 <= i < old(self).all_list().len() && old(self).all_list()[i]
                                    == s;
                            assert(self.all_list()[i] == s);
                        }
                        if self.all_list().contains(s) {
                            let i = choose|i: int|
                                0 <= i < self.all_list().len() && self.all_list()[i] == s;
                            assert(i < old(self).all_list().len());
                            assert(old(self).all_list()[i] == s);
                        }
                    }
                }
            }
            assert forall|i: int| 0 <= i < self.ready_list().len() implies self.task_is_alive(
                #[trigger] self.ready_list()[i],
            ) by {
                if i < old(self).ready_list().len() {
                    assert(old(self).task_is_alive(old(self).ready_list()[i]));
                } else {
                    assert(self.ready_list()[i] == t);
                }
            }
            assert forall|i: int| 0 <= i < self.round_list().len() implies self.task_is_alive(
                #[trigger] self.round_list()[i],
            ) by {
                assert(old(self).task_is_alive(old(self).round_list()[i]));
            }
            assert forall|i: int| 0 <= i < self.pending_queue().len() implies #[trigger]
            self.queue_entry_ok(i) by {
                assert(old(self).queue_entry_ok(i));
            }
            assert(self.ready_list().disjoint(self.round_list())) by {
                assert forall|i: int, j: int|
                    0 <= i < self.ready_list().len() && 0 <= j < self.round_list().len() implies
                    self.ready_list()[i] != self.round_list()[j] by {
                    if i < old(self).ready_list().len() {
                        assert(old(self).ready_list()[i] != old(self).round_list()[j]);
                    } else {
                        assert(self.ready_list()[i] == t);
                        assert(!old(self).round_list().contains(t));
                        assert(old(self).round_list()[j] != t);
                    }
                }
            }
        }
        t
    }

    /// Same-thread wake: schedule `t` for the next round, unless it is dead
    /// or already scheduled (on local-ready or in the round in progress).
    ///
    /// Returns whether the pool's waker should be fired.
    pub fn local_notify(&mut self, t: usize) -> (fired: bool)
        requires
            old(self).wf(),
            t < old(self).task_count(),
        ensures
            final(self).wf(),
            fired == (old(self).entry(t).alive && !old(self).ready_list().contains(t) && !old(self).round_list().contains(t)),
            fired ==> final(self).ready_list() == old(self).ready_list().push(t),
            !fired ==> final(self).ready_list() == old(self).ready_list(),
            final(self).task_count() == old(self).task_count(),
            forall|s: usize| s < old(self).task_count() ==> final(self).entry(s) == old(self).entry(s),
            final(self).all_list() == old(self).all_list(),
            final(self).round_list() == old(self).round_list(),
            final(self).pending_queue() == old(self).pending_queue(),
    {
        let alive = self.tasks[t].alive;
        if alive && !self.local_ready.contains(t) && !self.round.contains(t) {
            self.local_ready.append(t);
            proof {
                assert forall|i: int| 0 <= i < self.ready_list().len() implies self.task_is_alive(
                    #[trigger] self.ready_list()[i],
                ) by {
                    if i < old(self).ready_list().len() {
                        assert(old(self).task_is_alive(old(self).ready_list()[i]));
                    }
                }
                assert(self.ready_list().disjoint(self.round_list())) by {
                    assert forall|i: int, j: int|
                        0 <= i < self.ready_list().len() && 0 <= j
                            < self.round_list().len() implies self.ready_list()[i]
                        != self.round_list()[j] by {
                        if i < old(self).ready_list().len() {
                            assert(old(self).ready_list()[i] != old(self).round_list()[j]);
                        } else {
                            assert(self.ready_list()[i] == t);
                            assert(old(self).round_list()[j] != t);
                        }
                    }
                }
                lemma_carry_alive_iff_all(*old(self), *self);
                lemma_carry_queue_ok(*old(self), *self);
                lemma_carry_seq_alive(*old(self), *self, self.round_list());
            }
            true
        } else {
            proof {
                lemma_carry_alive_iff_all(*old(self), *self);
                lemma_carry_queue_ok(*old(self), *self);
                lemma_carry_seq_alive(*old(self), *self, self.ready_list());
                lemma_carry_seq_alive(*old(self), *self, self.round_list());
            }
            false
        }
    }

    /// Foreign-thread wake: the first wake for a not-yet-queued task puts it
    /// on the global-pending queue; later wakes coalesce until the queue is
    /// drained.
    ///
    /// Returns whether the pool's waker should be fired.
    pub fn global_notify(&mut self, t: usize) -> (fired: bool)
        requires
            old(self).wf(),
            t < old(self).task_count(),
        ensures
            final(self).wf(),
            fired == !old(self).entry(t).queued,
            fired ==> final(self).pending_queue() == old(self).pending_queue().push(Some(t))
                && final(self).entry(t) == (TaskEntry { alive: old(self).entry(t).alive, queued: true }),
            !fired ==> final(self).pending_queue() == old(self).pending_queue() && final(self).entry(t) == old(self).entry(t),
            final(self).task_count() == old(self).task_count(),
            forall|s: usize|
                s < old(self).task_count() && s != t ==> final(self).entry(s) == old(self).entry(
                    s,
                ),
            final(self).all_list() == old(self).all_list(),
            final(self).ready_list() == old(self).ready_list(),
            final(self).round_list() == old(self).round_list(),
    {
        let was_queued = self.tasks[t].queued;
        if !was_queued {
            let mut e = self.tasks[t];
            e.queued = true;
            self.tasks[t] = e;
            proof {
                assert(!mpsc::contains_node(old(self).pending_queue(), t)) by {
                    if mpsc::contains_node(old(self).pending_queue(), t) {
                        let i = choose|i: int|
                            0 <= i < old(self).pending_queue().len() && old(self).pending_queue()[i] == Some(t);
                        assert(old(self).queue_entry_ok(i));
                    }
                }
            }
            let link = Link::new(t);
            self.global_pending.push(&link);
            proof {
                let qn = self.pending_queue();
                let qo = old(self).pending_queue();
                assert forall|i: int| 0 <= i < qn.len() implies #[trigger] self.queue_entry_ok(
                    i,
                ) by {
                    if i < qo.len() {
                        assert(old(self).queue_entry_ok(i));
                        assert(qn[i] == qo[i]);
                    } else {
                        assert(qn[i] == Some(t));
                    }
                }
                assert forall|i: int, j: int|
                    #![trigger qn[i], qn[j]]
                    0 <= i < qn.len() && 0 <= j < qn.len() && i != j && qn[i] is Some implies qn[i]
                    != qn[j] by {
                    if i < qo.len() && j < qo.len() {
                        assert(qo[i] == qn[i] && qo[j] == qn[j]);
                    } else if i < qo.len() && j == qo.len() {
                        if qn[i] == qn[j] {
                            assert(qo[i] == Some(t));
                            assert(mpsc::contains_node(qo, t));
                        }
                    } else if i == qo.len() && j < qo.len() {
                        if qn[i] == qn[j] {
                            assert(qo[j] == Some(t));
                            assert(mpsc::contains_node(qo, t));
                        }
                    }
                }
                lemma_carry_alive_iff_all(*old(self), *self);
                lemma_carry_seq_alive(*old(self), *self, self.ready_list());
                lemma_carry_seq_alive(*old(self), *self, self.round_list());
            }
            true
        } else {
            proof {
                lemma_carry_alive_iff_all(*old(self), *self);
                lemma_carry_queue_ok(*old(self), *self);
                lemma_carry_seq_alive(*old(self), *self, self.ready_list());
                lemma_carry_seq_alive(*old(self), *self, self.round_list());
            }
            false
        }
    }

    /// A wake for task `t`: a wake on the owning thread appends to
    /// local-ready directly, a foreign one goes through the global-pending
    /// queue. Returns whether the pool's waker should be fired.
    pub fn wake(&mut self, t: usize, same_thread: bool) -> (fired: bool)
        requires
            old(self).wf(),
            t < old(self).task_count(),
        ensures
            final(self).wf(),
            final(self).task_count() == old(self).task_count(),
            final(self).all_list() == old(self).all_list(),
            final(self).round_list() == old(self).round_list(),
            forall|s: usize|
                s < old(self).task_count() && s != t ==> final(self).entry(s) == old(self).entry(
                    s,
                ),
            same_thread ==> (fired == (old(self).entry(t).alive && !old(self).ready_list().contains(t) && !old(self).round_list().contains(t)) && final(self).pending_queue() == old(self).pending_queue() && final(self).entry(t) == old(self).entry(t) && final(self).ready_list() == (if fired {
                old(self).ready_list().push(t)
            } else {
                old(self).ready_list()
            })),
            !same_thread ==> (fired == !old(self).entry(t).queued && final(self).ready_list()
                == old(self).ready_list() && final(self).entry(t) == (TaskEntry {
                alive: old(self).entry(t).alive,
                queued: true,
            }) && final(self).pending_queue() == (if fired {
                old(self).pending_queue().push(Some(t))
            } else {
                old(self).pending_queue()
            })),
    {
        if same_thread {
            self.local_notify(t)
        } else {
            self.global_notify(t)
        }
    }

    /// Clear task `t` when it has polled to completion (or when the pool is
    /// dropped): it leaves every list, `alive` falls, and `queued` is set so
    /// that no wake can ever enqueue it again. The caller destroys the
    /// computation's state in the same step.
    pub fn complete_task(&mut self, t: usize)
        requires
            old(self).wf(),
            t < old(self).task_count(),
            old(self).entry(t).alive,
        ensures
            final(self).wf(),
            final(self).task_count() == old(self).task_count(),
            final(self).entry(t) == (TaskEntry { alive: false, queued: true }),
            forall|s: usize|
                s < old(self).task_count() && s != t ==> final(self).entry(s) == old(self).entry(
                    s,
                ),
            final(self).all_list() == old(self).all_list().remove_value(t),
            final(self).ready_list() == old(self).ready_list().remove_value(t),
            final(self).round_list() == old(self).round_list().remove_value(t),
            final(self).pending_queue() == old(self).pending_queue(),
    {
        let mut e = self.tasks[t];
        e.alive = false;
        e.queued = true;
        self.tasks[t] = e;
        self.local_ready.unlink(t);
        self.round.unlink(t);
        self.local_all.unlink(t);
        proof {
            let ao = old(self).all_list();
            let an = self.all_list();
            ao.index_of_first_ensures(t);
            assert forall|s: usize| s < self.task_count() implies ((#[trigger] self.entry(
                s,
            )).alive <==> an.contains(s)) by {
                if s == t {
                    assert(!an.contains(t));
                } else {
                    assert(self.entry(s) == old(self).entry(s));
                    assert(an.contains(s) == ao.contains(s)) by {
                        if ao.contains(s) {
                            let i = choose|i: int| 0 <= i < ao.len() && ao[i] == s;
                            match ao.index_of_first(t) {
                                Some(k) => {
                                    if i < k {
                                        assert(an[i] == s);
                                    } else if i > k {
                                        assert(an[i - 1] == s);
                                    }
                                },
                                None => {
                                    assert(an == ao);
                                },
                            }
                        }
                        if an.contains(s) {
                            let i = choose|i: int| 0 <= i < an.len() && an[i] == s;
                            match ao.index_of_first(t) {
                                Some(k) => {
                                    ao.remove_ensures(k);
                                    if i < k {
                                        assert(ao[i] == s);
                                    } else {
                                        assert(ao[i + 1] == s);
                                    }
                                },
                                None => {
                                    assert(an == ao);
                                },
                            }
                        }
                    }
                }
            }
            assert(self.ready_list().no_duplicates() && self.round_list().no_duplicates()) by {
                lemma_remove_value_keeps(old(self).ready_list(), t);
                lemma_remove_value_keeps(old(self).round_list(), t);
            }
            assert(self.all_list().no_duplicates()) by {
                lemma_remove_value_keeps(ao, t);
            }
            assert forall|i: int| 0 <= i < self.ready_list().len() implies self.task_is_alive(
                #[trigger] self.ready_list()[i],
            ) by {
                lemma_remove_value_keeps(old(self).ready_list(), t);
                let s = self.ready_list()[i];
                assert(old(self).ready_list().contains(s) && s != t);
                let j = choose|j: int|
                    0 <= j < old(self).ready_list().len() && old(self).ready_list()[j] == s;
                assert(old(self).task_is_alive(old(self).ready_list()[j]));
            }
            assert forall|i: int| 0 <= i < self.round_list().len() implies self.task_is_alive(
                #[trigger] self.round_list()[i],
            ) by {
                lemma_remove_value_keeps(old(self).round_list(), t);
                let s = self.round_list()[i];
                assert(old(self).round_list().contains(s) && s != t);
                let j = choose|j: int|
                    0 <= j < old(self).round_list().len() && old(self).round_list()[j] == s;
                assert(old(self).task_is_alive(old(self).round_list()[j]));
            }
            assert(self.ready_list().disjoint(self.round_list())) by {
                lemma_remove_value_keeps(old(self).ready_list(), t);
                lemma_remove_value_keeps(old(self).round_list(), t);
                assert forall|i: int, j: int|
                    0 <= i < self.ready_list().len() && 0 <= j < self.round_list().len() implies
                    self.ready_list()[i] != self.round_list()[j] by {
                    let a = self.ready_list()[i];
                    let b = self.round_list()[j];
                    if a == b {
                        assert(old(self).ready_list().contains(a));
                        assert(old(self).round_list().contains(b));
                        let p = choose|p: int|
                            0 <= p < old(self).ready_list().len() && old(self).ready_list()[p]
                                == a;
                        let q = choose|q: int|
                            0 <= q < old(self).round_list().len() && old(self).round_list()[q]
                                == b;
                        assert(old(self).ready_list()[p] != old(self).round_list()[q]);
                    }
                }
            }
            assert forall|i: int| 0 <= i < self.pending_queue().len() implies #[trigger]
            self.queue_entry_ok(i) by {
                assert(old(self).queue_entry_ok(i));
            }
        }
    }

    /// Take the local-ready list as the round to poll; local-ready is empty
    /// afterwards, so wakes during the round schedule for the next one.
    pub fn start_round(&mut self)
        requires
            old(self).wf(),
            old(self).round_list().len() == 0,
        ensures
            final(self).wf(),
            final(self).round_list() == old(self).ready_list(),
            final(self).ready_list() == Seq::<usize>::empty(),
            final(self).task_count() == old(self).task_count(),
            forall|s: usize| s < old(self).task_count() ==> final(self).entry(s) == old(self).entry(s),
            final(self).all_list() == old(self).all_list(),
            final(self).pending_queue() == old(self).pending_queue(),
    {
        self.round.take_from(&mut self.local_ready);
        proof {
            assert forall|i: int| 0 <= i < self.round_list().len() implies self.task_is_alive(
                #[trigger] self.round_list()[i],
            ) by {
                assert(old(self).task_is_alive(old(self).ready_list()[i]));
            }
            lemma_carry_alive_iff_all(*old(self), *self);
            lemma_carry_queue_ok(*old(self), *self);
        }
    }

    /// Hand out the next task of the round, front first; each is polled
    /// exactly once per round.
    pub fn next_task(&mut self) -> (r: Option<usize>)
        requires
            old(self).wf(),
        ensures
            final(self).wf(),
            match r {
                Some(t) => old(self).round_list().len() > 0 && t == old(self).round_list().first()
                    && final(self).round_list() == old(self).round_list().drop_first() && t < old(self).task_count() && old(self).entry(t).alive,
                None => old(self).round_list().len() == 0 && final(self).round_list() == old(self).round_list(),
            },
            final(self).task_count() == old(self).task_count(),
            forall|s: usize| s < old(self).task_count() ==> final(self).entry(s) == old(self).entry(s),
            final(self).all_list() == old(self).all_list(),
            final(self).ready_list() == old(self).ready_list(),
            final(self).pending_queue() == old(self).pending_queue(),
    {
        let r = self.round.pop_front();
        proof {
            if r is Some {
                assert(old(self).task_is_alive(old(self).round_list()[0]));
            }
            assert forall|i: int| 0 <= i < self.round_list().len() implies self.task_is_alive(
                #[trigger] self.round_list()[i],
            ) by {
                assert(old(self).task_is_alive(old(self).round_list()[i + 1]));
            }
            lemma_carry_alive_iff_all(*old(self), *self);
            lemma_carry_queue_ok(*old(self), *self);
            lemma_carry_seq_alive(*old(self), *self, self.ready_list());
            assert(self.ready_list().disjoint(self.round_list())) by {
                assert forall|i: int, j: int|
                    0 <= i < self.ready_list().len() && 0 <= j < self.round_list().len() implies
                    self.ready_list()[i] != self.round_list()[j] by {
                    if r is Some {
                        assert(self.round_list()[j] == old(self).round_list()[j + 1]);
                        assert(old(self).ready_list()[i] != old(self).round_list()[j + 1]);
                    }
                }
            }
        }
        r
    }

    /// Reinstate an aborted round: every task not yet polled this round goes
    /// back to the front of local-ready, in its round order, so a later
    /// round still observes it. Run when a poll panics out of the round.
    pub fn abort_round(&mut self)
        requires
            old(self).wf(),
        ensures
            final(self).wf(),
            final(self).ready_list() == old(self).round_list() + old(self).ready_list(),
            final(self).round_list() == Seq::<usize>::empty(),
            final(self).task_count() == old(self).task_count(),
            forall|s: usize| s < old(self).task_count() ==> final(self).entry(s) == old(self).entry(s),
            final(self).all_list() == old(self).all_list(),
            final(self).pending_queue() == old(self).pending_queue(),
    {
        proof {
            let rl = old(self).round_list();
            assert(rl.subrange(0, rl.len() as int) =~= rl);
            assert(rl.subrange(rl.len() as int, rl.len() as int) + old(self).ready_list()
                =~= old(self).ready_list());
        }
        loop
            invariant_except_break
                self.wf(),
                old(self).wf(),
                self.task_count() == old(self).task_count(),
                forall|s: usize| s < old(self).task_count() ==> #[trigger] self.entry(s) == old(
                    self,
                ).entry(s),
                self.all_list() == old(self).all_list(),
                self.pending_queue() == old(self).pending_queue(),
                exists|n: int|
                    0 <= n <= old(self).round_list().len() && self.round_list() == old(
                        self,
                    ).round_list().subrange(0, n) && self.ready_list() == old(
                        self,
                    ).round_list().subrange(n, old(self).round_list().len() as int) + old(
                        self,
                    ).ready_list(),
            ensures
                self.wf(),
                self.task_count() == old(self).task_count(),
                forall|s: usize| s < old(self).task_count() ==> #[trigger] self.entry(s) == old(
                    self,
                ).entry(s),
                self.all_list() == old(self).all_list(),
                self.pending_queue() == old(self).pending_queue(),
                self.round_list() == Seq::<usize>::empty(),
                self.ready_list() == old(self).round_list() + old(self).ready_list(),
            decreases self.round_list().len(),
        {
            let ghost at_top = *self;
            let ghost rl = old(self).round_list();
            let ghost n = choose|n: int|
                0 <= n <= old(self).round_list().len() && self.round_list() == old(
                    self,
                ).round_list().subrange(0, n) && self.ready_list() == old(
                    self,
                ).round_list().subrange(n, old(self).round_list().len() as int) + old(
                    self,
                ).ready_list();
            proof {
                assert(0 <= n <= rl.len() && at_top.round_list() == rl.subrange(0, n)
                    && at_top.ready_list() == rl.subrange(n, rl.len() as int) + old(
                    self,
                ).ready_list());
            }
            match self.round.pop_back() {
                None => {
                    proof {
                        assert(n == 0);
                        assert(self.round_list() =~= Seq::<usize>::empty());
                        assert(self.ready_list() =~= rl + old(self).ready_list());
                        lemma_carry_alive_iff_all(at_top, *self);
                        lemma_carry_queue_ok(at_top, *self);
                        lemma_carry_seq_alive(at_top, *self, self.ready_list());
                        lemma_carry_seq_alive(at_top, *self, self.round_list());
                        assert forall|s: usize| s < old(self).task_count() implies #[trigger]
                        self.entry(s) == old(self).entry(s) by {
                            assert(at_top.entry(s) == old(self).entry(s));
                            assert(self.entry(s) == at_top.entry(s));
                        }
                    }
                    break ;
                },
                Some(t) => {
                    proof {
                        assert(n >= 1);
                        assert(rl.subrange(0, n)[n - 1] == t);
                        assert(t == rl[n - 1]);
                        // every task of the round is still alive
                        assert(old(self).task_is_alive(old(self).round_list()[n - 1]));
                        assert(self.entry(t) == old(self).entry(t));
                        // and not already on local-ready
                        assert(!self.ready_list().contains(t)) by {
                            if self.ready_list().contains(t) {
                                let i = choose|i: int|
                                    0 <= i < self.ready_list().len() && self.ready_list()[i] == t;
                                if i < rl.len() - n {
                                    assert(rl[n + i] == t);
                                    assert(rl[n - 1] == t);
                                } else {
                                    assert(old(self).ready_list()[i - (rl.len() - n)] == t);
                                    assert(old(self).ready_list().contains(t));
                                    assert(rl.contains(t));
                                }
                            }
                        }
                    }
                    let alive = self.tasks[t].alive;
                    let in_ready = self.local_ready.contains(t);
                    if alive && !in_ready {
                        self.local_ready.prepend(t);
                    }
                    proof {
                        assert(alive && !in_ready);
                        assert(self.round_list() =~= rl.subrange(0, n - 1));
                        assert(self.ready_list() =~= rl.subrange(n - 1, rl.len() as int) + old(
                            self,
                        ).ready_list());
                        lemma_carry_alive_iff_all(at_top, *self);
                        lemma_carry_queue_ok(at_top, *self);
                        assert forall|i: int| 0 <= i < self.ready_list().len() implies
                        self.task_is_alive(#[trigger] self.ready_list()[i]) by {
                            if i == 0 {
                                assert(self.ready_list()[0] == t);
                            } else {
                                assert(self.ready_list()[i] == at_top.ready_list()[i - 1]);
                                assert(at_top.task_is_alive(at_top.ready_list()[i - 1]));
                            }
                        }
                        assert forall|i: int| 0 <= i < self.round_list().len() implies
                        self.task_is_alive(#[trigger] self.round_list()[i]) by {
                            assert(self.round_list()[i] == at_top.round_list()[i]);
                            assert(at_top.task_is_alive(at_top.round_list()[i]));
                        }
                        assert(self.ready_list().disjoint(self.round_list())) by {
                            assert forall|p: int, q: int|
                                0 <= p < self.ready_list().len() && 0 <= q
                                    < self.round_list().len() implies self.ready_list()[p]
                                != self.round_list()[q] by {
                                assert(self.round_list()[q] == rl[q]);
                                if p == 0 {
                                    assert(self.ready_list()[0] == t);
                                    assert(old(self).round_list()[q] != old(
                                        self,
                                    ).round_list()[n - 1]);
                                } else if p - 1 < rl.len() - n {
                                    assert(self.ready_list()[p] == rl[n + p - 1]);
                                    assert(old(self).round_list()[q] != old(
                                        self,
                                    ).round_list()[n + p - 1]);
                                } else {
                                    assert(self.ready_list()[p] == old(self).ready_list()[p - 1
                                        - (rl.len() - n)]);
                                    assert(old(self).ready_list()[p - 1 - (rl.len() - n)] != old(
                                        self,
                                    ).round_list()[q]);
                                }
                            }
                        }
                        // entries are untouched throughout
                        assert forall|s: usize| s < old(self).task_count() implies #[trigger]
                        self.entry(s) == old(self).entry(s) by {
                            assert(at_top.entry(s) == old(self).entry(s));
                            assert(self.entry(s) == at_top.entry(s));
                        }
                        // the new witness for the next iteration
                        assert(0 <= n - 1 <= rl.len() && self.round_list() == rl.subrange(
                            0,
                            n - 1,
                        ) && self.ready_list() == rl.subrange(n - 1, rl.len() as int) + old(
                            self,
                        ).ready_list());
                    }
                },
            }
        }
    }

    /// One round has finished: the pool reports ready exactly when no live
    /// computation is left.
    /// Clear every live computation, in list order: run when the pool is
    /// dropped, which cancels every computation by destroying its state.
    /// Afterwards no list holds anything, as the pool's teardown asserts.
    pub fn clear_all_tasks(&mut self)
        requires
            old(self).wf(),
        ensures
            final(self).wf(),
            final(self).task_count() == old(self).task_count(),
            final(self).all_list() == Seq::<usize>::empty(),
            final(self).ready_list() == Seq::<usize>::empty(),
            final(self).round_list() == Seq::<usize>::empty(),
            forall|t: usize|
                t < old(self).task_count() ==> !(#[trigger] final(self).entry(t)).alive,
    {
        loop
            invariant_except_break
                self.wf(),
                self.task_count() == old(self).task_count(),
                forall|t: usize|
                    t < old(self).task_count() && !old(self).entry(t).alive ==> !(#[trigger]
                    self.entry(t)).alive,
            ensures
                self.wf(),
                self.task_count() == old(self).task_count(),
                self.all_list().len() == 0,
                forall|t: usize|
                    t < old(self).task_count() ==> !(#[trigger] self.entry(t)).alive,
            decreases self.all_list().len(),
        {
            let next = self.local_all.front();
            match next {
                None => {
                    proof {
                        self.lemma_done_iff_no_alive();
                    }
                    break ;
                },
                Some(t) => {
                    proof {
                        assert(self.all_list().contains(t)) by {
                            assert(self.all_list()[0] == t);
                        }
                        assert(self.all_list()[0] < self.task_count());
                    }
                    let ghost before = *self;
                    self.complete_task(t);
                    proof {
                        crate::seq_util::lemma_remove_value_keeps(before.all_list(), t);
                        assert(before.all_list().index_of_first(t) == Some(0int)) by {
                            before.all_list().index_of_first_ensures(t);
                            match before.all_list().index_of_first(t) {
                                Some(k) => {
                                    assert(before.all_list()[k] == t);
                                    assert(k == 0);
                                },
                                None => {
                                    assert(false);
                                },
                            }
                        }
                        assert(self.all_list() == before.all_list().remove(0));
                        assert forall|s: usize|
                            s < old(self).task_count() && !old(self).entry(s).alive implies !(
                        #[trigger] self.entry(s)).alive by {
                            if s != t {
                                assert(self.entry(s) == before.entry(s));
                                assert(before.entry(s).alive == old(self).entry(s).alive);
                            }
                        }
                    }
                },
            }
        }
        proof {
            assert(self.all_list() =~= Seq::<usize>::empty());
            assert(self.ready_list() =~= Seq::<usize>::empty()) by {
                if self.ready_list().len() > 0 {
                    assert(self.task_is_alive(self.ready_list()[0]));
                    assert(!self.entry(self.ready_list()[0]).alive);
                }
            }
            assert(self.round_list() =~= Seq::<usize>::empty()) by {
                if self.round_list().len() > 0 {
                    assert(self.task_is_alive(self.round_list()[0]));
                    assert(!self.entry(self.round_list()[0]).alive);
                }
            }
        }
    }

    /// At-most-once foreign queueing: whatever sequence of foreign wakes
    /// has run while the owning thread was between drains, a task occupies
    /// at most one entry of the global-pending queue, because only the
    /// wake that first set its `queued` flag pushed.
    pub proof fn lemma_foreign_queueing_at_most_once(&self, t: usize)
        requires
            self.wf(),
        ensures
            forall|i: int, j: int|
                #![trigger self.pending_queue()[i], self.pending_queue()[j]]
                0 <= i < self.pending_queue().len() && 0 <= j < self.pending_queue().len()
                    && self.pending_queue()[i] == Some(t) && self.pending_queue()[j] == Some(t)
                    ==> i == j,
    {
        assert forall|i: int, j: int|
            #![trigger self.pending_queue()[i], self.pending_queue()[j]]
            0 <= i < self.pending_queue().len() && 0 <= j < self.pending_queue().len()
                && self.pending_queue()[i] == Some(t) && self.pending_queue()[j] == Some(
                t,
            ) implies i == j by {
            if i != j {
                assert(self.pending_queue()[i] != self.pending_queue()[j]);
            }
        }
    }

    pub fn round_status_done(&self) -> (done: bool)
        ensures
            done == (self.all_list().len() == 0),
    {
        self.local_all.is_unlinked()
    }

    /// While a live computation exists the pool reports pending, and once
    /// none is left it reports ready.
    pub proof fn lemma_done_iff_no_alive(&self)
        requires
            self.wf(),
        ensures
            (self.all_list().len() == 0) <==> (forall|t: usize|
                t < self.task_count() ==> !(#[trigger] self.entry(t)).alive),
    {
        if self.all_list().len() == 0 {
            assert forall|t: usize| t < self.task_count() implies !(#[trigger] self.entry(
                t,
            )).alive by {
                assert(!self.all_list().contains(t));
            }
        } else {
            let t = self.all_list()[0];
            assert(self.all_list().contains(t));
            assert(self.entry(t).alive);
        }
    }

    /// Drain the global-pending queue into local-ready: each drained task
    /// has its `queued` flag cleared, and is scheduled unless dead or
    /// already scheduled. Only the owning thread drains.
    pub fn fetch_global_notifies(&mut self)
        requires
            old(self).wf(),
        ensures
            final(self).wf(),
            final(self).task_count() == old(self).task_count(),
            final(self).all_list() == old(self).all_list(),
            final(self).round_list() == old(self).round_list(),
            final(self).pending_queue() == seq![None::<usize>],
            final(self).ready_list() == drain_into_ready(
                old(self).ready_list(),
                old(self).round_list(),
                old(self).alive_map(),
                old(self).pending_queue(),
            ),
            forall|t: usize|
                t < old(self).task_count() ==> (#[trigger] final(self).entry(t)).alive == old(self).entry(t).alive,
            forall|t: usize|
                t < old(self).task_count() ==> (#[trigger] final(self).entry(t)).queued == (old(self).entry(t).queued && !mpsc::contains_node(old(self).pending_queue(), t)),
    {
        let ghost alives = old(self).alive_map();
        let ghost target = drain_into_ready(
            old(self).ready_list(),
            old(self).round_list(),
            alives,
            old(self).pending_queue(),
        );
        let ghost mut drained: Seq<usize> = Seq::empty();
        let mut d = self.global_pending.start_pop();
        proof {
            assert(alives.len() == old(self).task_count());
            assert forall|t: int| 0 <= t < alives.len() implies alives[t] == old(self).tasks@[
                t
            ].alive by {}
        }
        loop
            invariant_except_break
                self.wf(),
                d.stub_visits() <= 1,
                self.task_count() == old(self).task_count(),
                alives.len() == old(self).task_count(),
                self.all_list() == old(self).all_list(),
                self.round_list() == old(self).round_list(),
                forall|t: usize|
                    t < old(self).task_count() ==> (#[trigger] self.entry(t)).alive == old(self).entry(t).alive,
                forall|t: int| 0 <= t < alives.len() ==> alives[t] == old(self).tasks@[t].alive,
                forall|t: usize|
                    t < old(self).task_count() ==> (#[trigger] self.entry(t)).queued == (old(self).entry(t).queued && !drained.contains(t)),
                forall|t: usize|
                    mpsc::contains_node(old(self).pending_queue(), t) <==> (drained.contains(t)
                        || mpsc::contains_node(self.pending_queue(), t)),
                forall|t: usize| drained.contains(t) ==> !mpsc::contains_node(
                    self.pending_queue(),
                    t,
                ),
                d.stub_visits() == 1 ==> (self.pending_queue().len() >= 1
                    && self.pending_queue().last() is None && forall|k: int|
                    0 <= k < self.pending_queue().len() - 1
                        ==> (#[trigger] self.pending_queue()[k]) is Some),
                drain_into_ready(self.ready_list(), self.round_list(), alives,
                    self.pending_queue()) == target,
            ensures
                self.wf(),
                self.task_count() == old(self).task_count(),
                self.all_list() == old(self).all_list(),
                self.round_list() == old(self).round_list(),
                self.pending_queue() == seq![None::<usize>],
                self.ready_list() == target,
                forall|t: usize|
                    t < old(self).task_count() ==> (#[trigger] self.entry(t)).alive == old(self).entry(t).alive,
                forall|t: usize|
                    t < old(self).task_count() ==> (#[trigger] self.entry(t)).queued == (old(self).entry(t).queued && !mpsc::contains_node(old(self).pending_queue(), t)),
            decreases self.pending_queue().len(),
        {
            let ghost at_top = *self;
            let ghost drained_o = drained;
            let ghost qo = self.pending_queue();
            let ghost ready_o = self.ready_list();
            let ghost visits_o = d.stub_visits();
            let ghost entries_o = self.tasks@;
            proof {
                // pin the queue facts to snapshot values before popping
                assert forall|i: int| 0 <= i < qo.len() implies entry_ok_in(qo, i, entries_o) by {
                    assert(self.queue_entry_ok(i));
                }
                assert forall|i: int, j: int|
                    #![trigger qo[i], qo[j]]
                    0 <= i < qo.len() && 0 <= j < qo.len() && i != j && qo[i] is Some implies qo[i]
                    != qo[j] by {
                    assert(self.pending_queue()[i] == qo[i]);
                    assert(self.pending_queue()[j] == qo[j]);
                }
            }
            let r = self.global_pending.pop_next(&mut d);
            match r {
                None => {
                    proof {
                        // the queue holds only its stub now
                        if qo.len() >= 2 {
                            if qo[0] is Some {
                                assert(r is Some);
                            } else if visits_o == 0 {
                                assert(r is Some);
                            } else {
                                assert(qo[0] is Some);
                            }
                        }
                        assert(qo.len() < 2);
                        let w = choose|i: int| mpsc::stub_at(qo, i);
                        assert(mpsc::stub_at(qo, w));
                        assert(qo =~= seq![None::<usize>]);
                        lemma_drain_stub_only(self.ready_list(), self.round_list(), alives);
                        assert forall|t: usize|
                            mpsc::contains_node(old(self).pending_queue(), t) implies
                        drained.contains(t) by {
                            if mpsc::contains_node(self.pending_queue(), t) {
                                let i = choose|i: int|
                                    0 <= i < self.pending_queue().len()
                                        && self.pending_queue()[i] == Some(t);
                                assert(false);
                            }
                        }
                        // nothing but the queue's head cursor changed
                        lemma_carry_alive_iff_all(at_top, *self);
                        lemma_carry_queue_ok(at_top, *self);
                        lemma_carry_seq_alive(at_top, *self, self.ready_list());
                        lemma_carry_seq_alive(at_top, *self, self.round_list());
                        assert forall|t2: usize| t2 < old(self).task_count() implies (#[trigger]
                        self.entry(t2)).alive == old(self).entry(t2).alive by {
                            assert(at_top.entry(t2).alive == old(self).entry(t2).alive);
                            assert(self.entry(t2) == at_top.entry(t2));
                        }
                        assert forall|t2: usize| t2 < old(self).task_count() implies (#[trigger]
                        self.entry(t2)).queued == (old(self).entry(t2).queued
                            && !mpsc::contains_node(old(self).pending_queue(), t2)) by {
                            assert(at_top.entry(t2).queued == (old(self).entry(t2).queued
                                && !drained.contains(t2)));
                            assert(self.entry(t2) == at_top.entry(t2));
                            if mpsc::contains_node(old(self).pending_queue(), t2) {
                                assert(drained.contains(t2));
                            }
                            if drained.contains(t2) {
                                assert(mpsc::contains_node(old(self).pending_queue(), t2));
                            }
                        }
                    }
                    break ;
                },
                Some(t) => {
                    let ghost qn = self.pending_queue();
                    let ghost k: int = if qo[0] is Some { 0 } else { 1 };
                    proof {
                        // which entry was popped, and the new queue shape
                        if qo[0] is Some {
                            assert(qo[0] == Some(t));
                            assert(qn == qo.drop_first());
                        } else {
                            assert(visits_o == 0);
                            assert(qo[1] == Some(t));
                            assert(qn == qo.subrange(2, qo.len() as int).push(None));
                        }
                        // the popped entry names a valid, queued task
                        assert(qo[k] == Some(t));
                        assert(entry_ok_in(qo, k, entries_o));
                        assert(t < entries_o.len());
                        assert(self.tasks@ == entries_o);
                        assert(t < self.task_count());
                    }
                    let mut e = self.tasks[t];
                    e.queued = false;
                    self.tasks[t] = e;
                    let is_alive = self.tasks[t].alive;
                    let already = self.local_ready.contains(t) || self.round.contains(t);
                    if is_alive && !already {
                        self.local_ready.append(t);
                    }
                    proof {
                        drained = drained.push(t);
                    }
                    proof {
                        // t appears in qo only at k
                        assert forall|j: int|
                            0 <= j < qo.len() && j != k implies qo[j] != Some(t) by {
                            if qo[j] == Some(t) {
                                assert(qo[j] is Some);
                                assert(qo[j] != qo[k]);
                            }
                        }
                        // node conservation across this pop
                        assert forall|s: usize|
                            mpsc::contains_node(qo, s) <==> (s == t || mpsc::contains_node(
                                qn,
                                s,
                            )) by {
                            if mpsc::contains_node(qo, s) {
                                let i = choose|i: int| 0 <= i < qo.len() && qo[i] == Some(s);
                                if i != k && s != t {
                                    if qo[0] is Some {
                                        assert(qn[i - 1] == Some(s));
                                    } else {
                                        assert(i >= 2);
                                        assert(qn[i - 2] == Some(s));
                                    }
                                    assert(mpsc::contains_node(qn, s));
                                }
                            }
                            if s == t {
                                assert(qo[k] == Some(t));
                                assert(mpsc::contains_node(qo, t));
                            }
                            if mpsc::contains_node(qn, s) {
                                let i = choose|i: int| 0 <= i < qn.len() && qn[i] == Some(s);
                                if qo[0] is Some {
                                    assert(qo[i + 1] == Some(s));
                                } else {
                                    assert(i < qn.len() - 1);
                                    assert(qo[i + 2] == Some(s));
                                }
                                assert(mpsc::contains_node(qo, s));
                            }
                        }
                        assert(!mpsc::contains_node(qn, t)) by {
                            if mpsc::contains_node(qn, t) {
                                let i = choose|i: int| 0 <= i < qn.len() && qn[i] == Some(t);
                                if qo[0] is Some {
                                    assert(qo[i + 1] == Some(t));
                                } else {
                                    assert(i < qn.len() - 1);
                                    assert(qo[i + 2] == Some(t));
                                }
                            }
                        }
                        // queue entries still name valid queued tasks
                        assert forall|i: int| 0 <= i < qn.len() implies #[trigger]
                        self.queue_entry_ok(i) by {
                            match qn[i] {
                                Some(s) => {
                                    if qo[0] is Some {
                                        assert(qo[i + 1] == Some(s));
                                        assert(entry_ok_in(qo, i + 1, entries_o));
                                    } else {
                                        assert(i < qn.len() - 1);
                                        assert(qo[i + 2] == Some(s));
                                        assert(entry_ok_in(qo, i + 2, entries_o));
                                    }
                                    assert(s != t);
                                    assert(self.tasks@[s as int] == entries_o[s as int]);
                                },
                                None => {},
                            }
                        }
                        // the drain target is preserved
                        assert(drain_into_ready(ready_o, self.round_list(), alives, qo)
                            == drain_into_ready(
                            self.ready_list(),
                            self.round_list(),
                            alives,
                            qn,
                        )) by {
                            let rd = self.round_list();
                            let cond = t < alives.len() && alives[t as int] && !ready_o.contains(
                                t,
                            ) && !rd.contains(t);
                            let r2: Seq<usize> = if cond {
                                ready_o.push(t)
                            } else {
                                ready_o
                            };
                            assert(at_top.entry(t).alive == old(self).entry(t).alive);
                            assert(alives[t as int] == old(self).tasks@[t as int].alive);
                            assert(is_alive == entries_o[t as int].alive);
                            assert(self.ready_list() == r2);
                            if qo[0] is Some {
                                assert(drain_into_ready(ready_o, rd, alives, qo)
                                    == drain_into_ready(r2, rd, alives, qo.drop_first()));
                            } else {
                                assert(drain_into_ready(ready_o, rd, alives, qo)
                                    == drain_into_ready(ready_o, rd, alives, qo.drop_first()));
                                assert(qo.drop_first()[0] == Some(t));
                                assert(drain_into_ready(ready_o, rd, alives, qo.drop_first())
                                    == drain_into_ready(
                                    r2,
                                    rd,
                                    alives,
                                    qo.drop_first().drop_first(),
                                ));
                                lemma_drain_skips_tail_stub(
                                    r2,
                                    rd,
                                    alives,
                                    qo.drop_first().drop_first(),
                                );
                                assert(qo.drop_first().drop_first().push(None) =~= qn);
                            }
                        }
                        // alive flags are untouched; queued changed only at t
                        assert forall|t2: usize| t2 < old(self).task_count() implies (#[trigger]
                        self.entry(t2)).alive == old(self).entry(t2).alive by {
                            assert(at_top.entry(t2).alive == old(self).entry(t2).alive);
                            if t2 != t {
                                assert(self.tasks@[t2 as int] == entries_o[t2 as int]);
                            } else {
                                assert(self.entry(t).alive == at_top.entry(t).alive);
                            }
                        }
                        assert forall|t2: usize| t2 < old(self).task_count() implies (#[trigger]
                        self.entry(t2)).queued == (old(self).entry(t2).queued
                            && !drained.contains(t2)) by {
                            assert(at_top.entry(t2).queued == (old(self).entry(t2).queued
                                && !drained_o.contains(t2)));
                            if t2 == t {
                                assert(drained[drained.len() - 1] == t);
                                assert(drained.contains(t));
                            } else {
                                assert(self.tasks@[t2 as int] == entries_o[t2 as int]);
                                assert(drained.contains(t2) == drained_o.contains(t2)) by {
                                    if drained_o.contains(t2) {
                                        let i = choose|i: int|
                                            0 <= i < drained_o.len() && drained_o[i] == t2;
                                        assert(drained[i] == t2);
                                    }
                                    if drained.contains(t2) {
                                        let i = choose|i: int|
                                            0 <= i < drained.len() && drained[i] == t2;
                                        assert(i < drained_o.len());
                                        assert(drained_o[i] == t2);
                                    }
                                }
                            }
                        }
                        // conservation of queue nodes, with the new drained set
                        assert forall|t2: usize|
                            mpsc::contains_node(old(self).pending_queue(), t2) <==> (
                        drained.contains(t2) || mpsc::contains_node(self.pending_queue(), t2)) by {
                            assert(mpsc::contains_node(old(self).pending_queue(), t2) <==> (
                            drained_o.contains(t2) || mpsc::contains_node(qo, t2)));
                            assert(mpsc::contains_node(qo, t2) <==> (t2 == t
                                || mpsc::contains_node(qn, t2)));
                            if t2 == t {
                                assert(drained[drained.len() - 1] == t);
                                assert(drained.contains(t));
                            }
                            if drained_o.contains(t2) {
                                let i = choose|i: int|
                                    0 <= i < drained_o.len() && drained_o[i] == t2;
                                assert(drained[i] == t2);
                                assert(drained.contains(t2));
                            }
                            if drained.contains(t2) && t2 != t {
                                let i = choose|i: int| 0 <= i < drained.len() && drained[i] == t2;
                                assert(i < drained_o.len());
                                assert(drained_o.contains(t2));
                            }
                        }
                        assert forall|t2: usize| drained.contains(t2) implies !mpsc::contains_node(
                            self.pending_queue(),
                            t2,
                        ) by {
                            if t2 == t {
                                assert(!mpsc::contains_node(qn, t));
                            } else if drained.contains(t2) {
                                let i = choose|i: int| 0 <= i < drained.len() && drained[i] == t2;
                                if i < drained_o.len() {
                                    assert(drained_o[i] == t2);
                                    assert(drained_o.contains(t2));
                                    assert(!mpsc::contains_node(qo, t2));
                                    if mpsc::contains_node(qn, t2) {
                                        assert(mpsc::contains_node(qo, t2));
                                    }
                                } else {
                                    assert(drained[i] == t);
                                }
                            }
                        }
                        // the queue stays duplicate-free
                        assert forall|i: int, j: int|
                            #![trigger qn[i], qn[j]]
                            0 <= i < qn.len() && 0 <= j < qn.len() && i != j
                                && qn[i] is Some implies qn[i] != qn[j] by {
                            if qn[j] is Some {
                                if qo[0] is Some {
                                    assert(qn[i] == qo[i + 1]);
                                    assert(qn[j] == qo[j + 1]);
                                    assert(qo[i + 1] != qo[j + 1]);
                                } else {
                                    assert(i < qn.len() - 1);
                                    assert(j < qn.len() - 1);
                                    assert(qn[i] == qo[i + 2]);
                                    assert(qn[j] == qo[j + 2]);
                                    assert(qo[i + 2] != qo[j + 2]);
                                }
                            }
                        }
                        // ready-list invariants
                        assert forall|i: int| 0 <= i < self.ready_list().len() implies
                        self.task_is_alive(#[trigger] self.ready_list()[i]) by {
                            if i < ready_o.len() {
                                assert(self.ready_list()[i] == ready_o[i]);
                                assert(at_top.task_is_alive(at_top.ready_list()[i]));
                                assert(self.entry(ready_o[i]).alive == at_top.entry(
                                    ready_o[i],
                                ).alive);
                            } else {
                                assert(self.ready_list()[i] == t);
                            }
                        }
                        assert(self.ready_list().disjoint(self.round_list())) by {
                            assert forall|i: int, j: int|
                                0 <= i < self.ready_list().len() && 0 <= j
                                    < self.round_list().len() implies self.ready_list()[i]
                                != self.round_list()[j] by {
                                if i < ready_o.len() {
                                    assert(self.ready_list()[i] == ready_o[i]);
                                    assert(at_top.ready_list()[i] != at_top.round_list()[j]);
                                } else {
                                    assert(self.ready_list()[i] == t);
                                    assert(!self.round_list().contains(t));
                                    if self.round_list()[j] == t {
                                        assert(self.round_list().contains(t));
                                    }
                                }
                            }
                        }
                        lemma_carry_alive_iff_all(at_top, *self);
                        lemma_carry_seq_alive(at_top, *self, self.round_list());
                        // stub shape bookkeeping for the visit counter
                        if d.stub_visits() == 1 {
                            if visits_o == 0 {
                                assert(mpsc::stub_at(qo, 0));
                                assert forall|k2: int| 0 <= k2 < qn.len() - 1 implies (#[trigger]
                                qn[k2]) is Some by {
                                    if qn[k2] is None {
                                        assert(mpsc::stub_at(qo, k2 + 2));
                                    }
                                }
                            } else {
                                assert forall|k2: int| 0 <= k2 < qn.len() - 1 implies (#[trigger]
                                qn[k2]) is Some by {
                                    assert(qn[k2] == qo[k2 + 1]);
                                }
                            }
                        }
                    }
                },
            }
        }
    }

}

/// Carry the alive-iff-on-local-all invariant to a state with the same
/// alive flags and the same local-all list.
proof fn lemma_carry_alive_iff_all(a: TaskList, b: TaskList)
    requires
        forall|t: usize|
            t < a.task_count() ==> ((#[trigger] a.entry(t)).alive <==> a.all_list().contains(t)),
        b.task_count() == a.task_count(),
        forall|t: usize|
            t < a.task_count() ==> (#[trigger] b.entry(t)).alive == a.entry(t).alive,
        b.all_list() == a.all_list(),
    ensures
        forall|t: usize|
            t < b.task_count() ==> ((#[trigger] b.entry(t)).alive <==> b.all_list().contains(t)),
{
    assert forall|t: usize| t < b.task_count() implies ((#[trigger] b.entry(t)).alive
        <==> b.all_list().contains(t)) by {
        assert(a.entry(t).alive <==> a.all_list().contains(t));
        assert(b.entry(t).alive == a.entry(t).alive);
    }
}

/// Carry the queue-entry invariant to a state with the same queued flags
/// and the same global-pending queue.
proof fn lemma_carry_queue_ok(a: TaskList, b: TaskList)
    requires
        forall|i: int| 0 <= i < a.pending_queue().len() ==> #[trigger] a.queue_entry_ok(i),
        b.task_count() == a.task_count(),
        forall|t: usize|
            t < a.task_count() ==> (#[trigger] b.entry(t)).queued == a.entry(t).queued,
        b.pending_queue() == a.pending_queue(),
    ensures
        forall|i: int| 0 <= i < b.pending_queue().len() ==> #[trigger] b.queue_entry_ok(i),
{
    assert forall|i: int| 0 <= i < b.pending_queue().len() implies #[trigger] b.queue_entry_ok(
        i,
    ) by {
        assert(a.queue_entry_ok(i));
        match b.pending_queue()[i] {
            Some(t) => {
                assert(b.entry(t).queued == a.entry(t).queued);
            },
            None => {},
        }
    }
}

/// Carry "every member of `s` is alive" to a state with the same alive
/// flags.
proof fn lemma_carry_seq_alive(a: TaskList, b: TaskList, s: Seq<usize>)
    requires
        forall|i: int| 0 <= i < s.len() ==> a.task_is_alive(#[trigger] s[i]),
        b.task_count() == a.task_count(),
        forall|t: usize|
            t < a.task_count() ==> (#[trigger] b.entry(t)).alive == a.entry(t).alive,
    ensures
        forall|i: int| 0 <= i < s.len() ==> b.task_is_alive(#[trigger] s[i]),
{
    assert forall|i: int| 0 <= i < s.len() implies b.task_is_alive(#[trigger] s[i]) by {
        assert(a.task_is_alive(s[i]));
        assert(b.entry(s[i]).alive == a.entry(s[i]).alive);
    }
}

/// The queue-entry invariant, stated of snapshot values.
spec fn entry_ok_in(q: Seq<Option<usize>>, i: int, tasks: Seq<TaskEntry>) -> bool {
    match q[i] {
        Some(t) => t < tasks.len() && tasks[t as int].queued,
        None => true,
    }
}

} // verus!
