use fumio::ErrorKind;
use fumio::current::Current;
use fumio::pool::{LocalPool, LocalSpawner, current_local};

// Spawn a computation that completes on its first poll: one round drives
// the pool to ready, and nothing is left on any list.
#[test]
fn spawn_echo_runs_to_completion() {
    let mut pool = LocalPool::new();
    let t = pool.spawn();
    assert_eq!(t, 0);
    pool.poll_pool();
    assert_eq!(pool.next_task(), Some(t));
    pool.complete_task(t); // the poll returned ready
    assert_eq!(pool.next_task(), None);
    assert!(pool.round_status_done());
}

// Two computations: a waits for b; b completes on its first poll and
// wakes a from the same thread; a completes on the next round.
#[test]
fn ping_pong_completes_in_two_rounds() {
    let mut pool = LocalPool::new();
    let a = pool.spawn();
    let b = pool.spawn();

    pool.poll_pool();
    assert_eq!(pool.next_task(), Some(a));
    // polling a: it blocks on the channel, stays pending
    assert_eq!(pool.next_task(), Some(b));
    // polling b: it sends, waking a, and completes
    let fired = pool.wake(a, true);
    assert!(fired);
    pool.complete_task(b);
    assert_eq!(pool.next_task(), None);
    assert!(!pool.round_status_done()); // a is still alive

    pool.poll_pool();
    assert_eq!(pool.next_task(), Some(a));
    pool.complete_task(a);
    assert_eq!(pool.next_task(), None);
    assert!(pool.round_status_done());
}

// A foreign thread fires the waker a thousand times while the computation
// is parked: the wakes coalesce to one queue entry, so the next round
// polls the computation exactly once.
#[test]
fn foreign_wakes_coalesce() {
    let mut pool = LocalPool::new();
    let c = pool.spawn();
    pool.poll_pool();
    assert_eq!(pool.next_task(), Some(c));
    // polling c: it parks on a manually-triggered waker
    assert_eq!(pool.next_task(), None);

    let mut fired: usize = 0;
    for _ in 0..1000 {
        if pool.wake(c, false) {
            fired += 1;
        }
    }
    assert_eq!(fired, 1);

    pool.poll_pool();
    assert_eq!(pool.next_task(), Some(c)); // polled once
    assert_eq!(pool.next_task(), None); // and only once
    pool.complete_task(c);
    assert!(pool.round_status_done());
}

// A wake on the owning thread while the task is already scheduled does
// not schedule it twice.
#[test]
fn local_wakes_coalesce_with_schedule() {
    let mut pool = LocalPool::new();
    let t = pool.spawn(); // already on local-ready
    assert!(!pool.wake(t, true));
    pool.poll_pool();
    assert_eq!(pool.next_task(), Some(t));
    assert_eq!(pool.next_task(), None);
    pool.complete_task(t);
}

// A poll panics out of the round: the panicking task is cleared, and
// every task still scheduled this round is reinstated, so the next round
// observes them in order.
#[test]
fn aborted_round_loses_no_task() {
    let mut pool = LocalPool::new();
    let t0 = pool.spawn();
    let t1 = pool.spawn();
    let t2 = pool.spawn();

    pool.poll_pool();
    assert_eq!(pool.next_task(), Some(t0));
    // polling t0 panics: it is cleared, and the round is torn down
    pool.complete_task(t0);
    pool.abort_round();

    pool.poll_pool();
    assert_eq!(pool.next_task(), Some(t1));
    assert_eq!(pool.next_task(), Some(t2));
    assert_eq!(pool.next_task(), None);
    pool.complete_task(t1);
    pool.complete_task(t2);
    assert!(pool.round_status_done());
}

// The pool reports ready exactly when no computation is alive.
#[test]
fn status_pending_while_alive() {
    let mut pool = LocalPool::new();
    assert!(pool.round_status_done());
    let t = pool.spawn();
    assert!(!pool.round_status_done());
    pool.poll_pool();
    assert_eq!(pool.next_task(), Some(t));
    pool.complete_task(t);
    assert!(pool.round_status_done());
}

// A completed task can still be woken from a foreign thread; the wake
// coalesces against the permanently-set queued flag and schedules nothing.
#[test]
fn wake_of_completed_task_is_inert() {
    let mut pool = LocalPool::new();
    let t = pool.spawn();
    pool.poll_pool();
    assert_eq!(pool.next_task(), Some(t));
    pool.complete_task(t);
    assert!(!pool.wake(t, false));
    assert!(!pool.wake(t, true));
    pool.poll_pool();
    assert_eq!(pool.next_task(), None);
}

// Spawning through a handle whose pool is gone reports shutdown.
#[test]
fn spawner_after_shutdown_fails() {
    let mut pool = LocalPool::new();
    let spawner = pool.spawner();
    assert_eq!(spawner.status_local(true), Ok(()));
    assert_eq!(spawner.status_local(false), Err(ErrorKind::Shutdown));
    assert_eq!(spawner.spawn_local_obj(&mut pool, true), Ok(0));
    assert_eq!(
        spawner.spawn_local_obj(&mut pool, false),
        Err(ErrorKind::Shutdown)
    );
}

// Tearing the pool down cancels every live computation; afterwards the
// emptiness assertions of the pool's teardown hold.
#[test]
fn teardown_clears_every_computation() {
    let mut pool = LocalPool::new();
    pool.spawn();
    pool.spawn();
    pool.poll_pool(); // one is mid-round, one completes
    let first = pool.next_task().unwrap();
    pool.complete_task(first);
    pool.clear_all_tasks();
    assert!(pool.round_status_done());
    assert_eq!(pool.next_task(), None);
}

// A task that completes while it still sits on the global-pending queue
// is skipped by the drain: its entry is consumed, nothing is scheduled.
#[test]
fn drain_skips_dead_tasks() {
    let mut pool = LocalPool::new();
    let t = pool.spawn();
    pool.poll_pool();
    assert_eq!(pool.next_task(), Some(t));
    // polled, stays pending; a foreign wake queues it
    assert!(pool.wake(t, false));
    // then it completes before the next drain
    pool.complete_task(t);
    pool.poll_pool();
    assert_eq!(pool.next_task(), None);
    assert!(pool.round_status_done());
}

// Exclusive registry access can replace the installed handle.
#[test]
fn registry_with_mut_replaces() {
    let mut reg: Current<u32> = Current::new();
    reg.enter(1);
    *reg.with_mut() = Some(2);
    assert_eq!(*reg.with(), Some(2));
    reg.exit();
    assert_eq!(*reg.with(), None);
}

// The thread-local spawner registry hands back what was entered.
#[test]
fn current_local_reflects_the_registry() {
    let mut reg: Current<LocalSpawner> = Current::new();
    assert_eq!(current_local(&reg), None);
    let pool = LocalPool::new();
    reg.enter(pool.spawner());
    assert_eq!(current_local(&reg), Some(pool.spawner()));
    reg.exit();
    assert_eq!(current_local(&reg), None);
}
