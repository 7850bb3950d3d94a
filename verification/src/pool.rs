//! A single-threaded pool polling computations to completion.
//!
//! The pool owns the task bookkeeping; the caller owns the computations
//! themselves, keyed by the task identifiers the pool hands out, and drives
//! rounds: begin one with `poll_pool`, poll each task `next_task` yields
//! exactly once, report each completion with `complete_task`, and read the
//! round's status afterwards. A poll that panics out of a round is followed
//! by `abort_round`, which loses no scheduled task.

pub mod task;

use vstd::prelude::*;
use crate::ErrorKind;
use crate::current::Current;
use self::task::{TaskList, drain_into_ready};

verus! {

/// A single-threaded pool of computations.
#[derive(Debug)]
pub struct LocalPool {
    task_list: TaskList,
}

impl LocalPool {
    /// The pool's task bookkeeping.
    pub closed spec fn list(&self) -> TaskList {
        self.task_list
    }

    /// Create a new, empty pool of tasks.
    pub fn new() -> (r: Self)
        ensures
            r.list().wf(),
            r.list().task_count() == 0,
            r.list().all_list() == Seq::<usize>::empty(),
            r.list().ready_list() == Seq::<usize>::empty(),
            r.list().round_list() == Seq::<usize>::empty(),
            r.list().pending_queue() == seq![None::<usize>],
    {
        LocalPool { task_list: TaskList::new() }
    }

    /// Get a clonable handle able to spawn onto the pool.
    pub fn spawner(&self) -> (r: LocalSpawner)
        ensures
            r == (LocalSpawner {  }),
    {
        LocalSpawner {  }
    }

    /// Spawn a computation on the pool: it becomes alive at once and is
    /// scheduled so that its first poll happens on the next round. Returns
    /// the new task's identifier; on a live pool this never fails.
    pub fn spawn(&mut self) -> (t: usize)
        requires
            old(self).list().wf(),
            old(self).list().task_count() < usize::MAX,
        ensures
            final(self).list().wf(),
            t == old(self).list().task_count(),
            final(self).list().task_count() == old(self).list().task_count() + 1,
            final(self).list().entry(t) == (task::TaskEntry { alive: true, queued: false }),
            forall|s: usize|
                s < old(self).list().task_count() ==> final(self).list().entry(s) == old(self).list().entry(s),
            final(self).list().all_list() == old(self).list().all_list().push(t),
            final(self).list().ready_list() == old(self).list().ready_list().push(t),
            final(self).list().round_list() == old(self).list().round_list(),
            final(self).list().pending_queue() == old(self).list().pending_queue(),
    {
        self.task_list.add_task()
    }

    /// Make progress on the entire pool: drain the foreign wakes into
    /// local-ready, then take local-ready as the round to poll. The caller
    /// polls each task `next_task` yields exactly once and then reads
    /// `round_status_done`.
    pub fn poll_pool(&mut self)
        requires
            old(self).list().wf(),
            old(self).list().round_list().len() == 0,
        ensures
            final(self).list().wf(),
            final(self).list().task_count() == old(self).list().task_count(),
            final(self).list().all_list() == old(self).list().all_list(),
            final(self).list().ready_list() == Seq::<usize>::empty(),
            final(self).list().round_list() == drain_into_ready(
                old(self).list().ready_list(),
                Seq::<usize>::empty(),
                old(self).list().alive_map(),
                old(self).list().pending_queue(),
            ),
            final(self).list().pending_queue() == seq![None::<usize>],
            forall|t: usize|
                t < old(self).list().task_count() ==> (#[trigger] final(self).list().entry(
                    t,
                )).alive == old(self).list().entry(t).alive,
            forall|t: usize|
                t < old(self).list().task_count() ==> (#[trigger] final(self).list().entry(
                    t,
                )).queued == (old(self).list().entry(t).queued && !crate::mpsc::contains_node(
                    old(self).list().pending_queue(),
                    t,
                )),
    {
        proof {
            assert(old(self).list().round_list() =~= Seq::<usize>::empty());
        }
        self.task_list.fetch_global_notifies();
        self.task_list.start_round();
    }

    /// Hand out the next task of the round in progress, if any.
    pub fn next_task(&mut self) -> (r: Option<usize>)
        requires
            old(self).list().wf(),
        ensures
            final(self).list().wf(),
            match r {
                Some(t) => old(self).list().round_list().len() > 0 && t == old(self).list().round_list().first() && final(self).list().round_list() == old(self).list().round_list().drop_first() && t < old(self).list().task_count() && old(self).list().entry(t).alive,
                None => old(self).list().round_list().len() == 0 && final(self).list().round_list()
                    == old(self).list().round_list(),
            },
            final(self).list().task_count() == old(self).list().task_count(),
            forall|s: usize|
                s < old(self).list().task_count() ==> final(self).list().entry(s) == old(self).list().entry(s),
            final(self).list().all_list() == old(self).list().all_list(),
            final(self).list().ready_list() == old(self).list().ready_list(),
            final(self).list().pending_queue() == old(self).list().pending_queue(),
    {
        self.task_list.next_task()
    }

    /// Report that task `t` polled to completion (or is destroyed with the
    /// pool): it leaves every list and can never be woken again.
    pub fn complete_task(&mut self, t: usize)
        requires
            old(self).list().wf(),
            t < old(self).list().task_count(),
            old(self).list().entry(t).alive,
        ensures
            final(self).list().wf(),
            final(self).list().task_count() == old(self).list().task_count(),
            final(self).list().entry(t) == (task::TaskEntry { alive: false, queued: true }),
            forall|s: usize|
                s < old(self).list().task_count() && s != t ==> final(self).list().entry(s)
                    == old(self).list().entry(s),
            final(self).list().all_list() == old(self).list().all_list().remove_value(t),
            final(self).list().ready_list() == old(self).list().ready_list().remove_value(t),
            final(self).list().round_list() == old(self).list().round_list().remove_value(t),
            final(self).list().pending_queue() == old(self).list().pending_queue(),
    {
        self.task_list.complete_task(t)
    }

    /// Reinstate an aborted round onto the front of local-ready, so that a
    /// later round still polls every task that was scheduled.
    pub fn abort_round(&mut self)
        requires
            old(self).list().wf(),
        ensures
            final(self).list().wf(),
            final(self).list().ready_list() == old(self).list().round_list() + old(self).list().ready_list(),
            final(self).list().round_list() == Seq::<usize>::empty(),
            final(self).list().task_count() == old(self).list().task_count(),
            forall|s: usize|
                s < old(self).list().task_count() ==> final(self).list().entry(s) == old(self).list().entry(s),
            final(self).list().all_list() == old(self).list().all_list(),
            final(self).list().pending_queue() == old(self).list().pending_queue(),
    {
        self.task_list.abort_round()
    }

    /// Clear every live computation: run when the pool is dropped, which
    /// cancels every computation by destroying its state.
    pub fn clear_all_tasks(&mut self)
        requires
            old(self).list().wf(),
        ensures
            final(self).list().wf(),
            final(self).list().task_count() == old(self).list().task_count(),
            final(self).list().all_list() == Seq::<usize>::empty(),
            final(self).list().ready_list() == Seq::<usize>::empty(),
            final(self).list().round_list() == Seq::<usize>::empty(),
            forall|t: usize|
                t < old(self).list().task_count() ==> !(#[trigger] final(self).list().entry(
                    t,
                )).alive,
    {
        self.task_list.clear_all_tasks()
    }

    /// After a round: ready exactly when no live computation is left,
    /// pending while one is.
    pub fn round_status_done(&self) -> (done: bool)
        ensures
            done == (self.list().all_list().len() == 0),
    {
        self.task_list.round_status_done()
    }

    /// A wake for task `t`, dispatched on whether it comes from the pool's
    /// own thread; returns whether the pool's waker should be fired.
    pub fn wake(&mut self, t: usize, same_thread: bool) -> (fired: bool)
        requires
            old(self).list().wf(),
            t < old(self).list().task_count(),
        ensures
            final(self).list().wf(),
            final(self).list().task_count() == old(self).list().task_count(),
            final(self).list().all_list() == old(self).list().all_list(),
            final(self).list().round_list() == old(self).list().round_list(),
            forall|s: usize|
                s < old(self).list().task_count() && s != t ==> final(self).list().entry(s)
                    == old(self).list().entry(s),
            same_thread ==> (fired == (old(self).list().entry(t).alive && !old(self).list().ready_list().contains(t) && !old(self).list().round_list().contains(t))
                && final(self).list().pending_queue() == old(self).list().pending_queue()
                && final(self).list().entry(t) == old(self).list().entry(t)
                && final(self).list().ready_list() == (if fired {
                old(self).list().ready_list().push(t)
            } else {
                old(self).list().ready_list()
            })),
            !same_thread ==> (fired == !old(self).list().entry(t).queued && final(self).list().ready_list() == old(self).list().ready_list() && final(self).list().entry(t)
                == (task::TaskEntry { alive: old(self).list().entry(t).alive, queued: true })
                && final(self).list().pending_queue() == (if fired {
                old(self).list().pending_queue().push(Some(t))
            } else {
                old(self).list().pending_queue()
            })),
    {
        self.task_list.wake(t, same_thread)
    }
}

/// A handle to a pool that can spawn onto it.
///
/// The real handle holds a weak reference to its pool; what the pool's
/// death does to the handle is captured by the `pool_alive` argument of
/// the spawn operations.
#[derive(Clone, Copy, Debug, PartialEq, Eq, Structural)]
pub struct LocalSpawner {}

impl LocalSpawner {
    /// Spawn through the handle: fails with `Shutdown` exactly when the
    /// pool behind the handle has been dropped.
    pub fn spawn_local_obj(&self, pool: &mut LocalPool, pool_alive: bool) -> (r: Result<
        usize,
        ErrorKind,
    >)
        requires
            old(pool).list().wf(),
            old(pool).list().task_count() < usize::MAX,
        ensures
            final(pool).list().wf(),
            !pool_alive ==> r == Result::<usize, ErrorKind>::Err(ErrorKind::Shutdown) && *final(pool) == *old(pool),
            pool_alive ==> r == Result::<usize, ErrorKind>::Ok(old(pool).list().task_count()
                as usize) && final(pool).list().task_count() == old(pool).list().task_count() + 1
                && final(pool).list().all_list() == old(pool).list().all_list().push(
                old(pool).list().task_count() as usize,
            ) && final(pool).list().ready_list() == old(pool).list().ready_list().push(
                old(pool).list().task_count() as usize,
            ),
    {
        if pool_alive {
            let t = pool.spawn();
            Ok(t)
        } else {
            Err(ErrorKind::Shutdown)
        }
    }

    /// Whether spawning through the handle can currently succeed.
    pub fn status_local(&self, pool_alive: bool) -> (r: Result<(), ErrorKind>)
        ensures
            r is Ok <==> pool_alive,
            !pool_alive ==> r == Result::<(), ErrorKind>::Err(ErrorKind::Shutdown),
    {
        if pool_alive {
            Ok(())
        } else {
            Err(ErrorKind::Shutdown)
        }
    }
}

impl Default for LocalPool {
    fn default() -> (r: Self)
        ensures
            r.list().wf(),
            r.list().task_count() == 0,
            r.list().all_list() == Seq::<usize>::empty(),
            r.list().ready_list() == Seq::<usize>::empty(),
            r.list().round_list() == Seq::<usize>::empty(),
            r.list().pending_queue() == seq![None::<usize>],
    {
        Self::new()
    }
}

/// Retrieve the spawner installed on the current thread, if any.
pub fn current_local(reg: &Current<LocalSpawner>) -> (r: Option<LocalSpawner>)
    ensures
        r == reg.value(),
{
    match reg.with() {
        Some(s) => Some(*s),
        None => None,
    }
}

} // verus!
