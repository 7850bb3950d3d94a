use fumio::ErrorKind;
use fumio::helper::{async_io, AsyncIoStep, SysOutcome};
use fumio::reactor::evented::{OpOutcome, PollEvented, TryIo};
use fumio::reactor::lazy_handle::LazyHandle;
use fumio::reactor::registration::Registration;
use fumio::reactor::task::{PollReadiness, SlotTable};
use fumio::reactor::waker::WakeAction;
use fumio::reactor::{as_token, from_token, Reactor, WAKE_TOKEN};

const READ: u32 = 0b01;
const WRITE: u32 = 0b10;

#[test]
fn register_dispatch_poll() {
    let mut table = SlotTable::new();
    let mut reactor = Reactor::new();
    let mut reg = Registration::new(READ, WRITE);

    let (id, action) = reg.register(&mut reactor, &mut table);
    assert_eq!(action, WakeAction::Deferred);
    reactor.cleanup_tasks(&mut table);
    assert!(reactor.is_live(id));

    // an event before any poll accumulates; no waker is registered yet
    let fired = reactor.dispatch_event(&mut table, as_token(id), READ);
    assert_eq!(fired, (false, false));
    match reg.poll_read_ready(&mut table, true) {
        PollReadiness::Ready(bits) => assert_eq!(bits, READ),
        other => panic!("expected readiness, got {:?}", other),
    }

    // no readiness: pending, with the waker armed; the next event fires it
    assert_eq!(reg.poll_read_ready(&mut table, true), PollReadiness::Pending);
    let fired = reactor.dispatch_event(&mut table, as_token(id), READ | WRITE);
    assert_eq!(fired, (true, false));
    match reg.poll_read_ready(&mut table, true) {
        PollReadiness::Ready(bits) => assert_eq!(bits, READ),
        other => panic!("expected readiness, got {:?}", other),
    }
    match reg.clear_write_ready(&mut table) {
        Ok(bits) => assert_eq!(bits, WRITE),
        Err(e) => panic!("unexpected error {:?}", e),
    }
}

#[test]
fn unregistered_operations_fail() {
    let mut table = SlotTable::new();
    let reg = Registration::new(READ, WRITE);
    assert_eq!(reg.clear_read_ready(&mut table), Err(ErrorKind::NotRegistered));
    assert_eq!(reg.clear_write_ready(&mut table), Err(ErrorKind::NotRegistered));
    assert_eq!(
        reg.poll_read_ready(&mut table, true),
        PollReadiness::Failed(ErrorKind::NotRegistered)
    );
    assert_eq!(
        reg.poll_write_ready(&mut table, true),
        PollReadiness::Failed(ErrorKind::NotRegistered)
    );
}

// Register a source, drop the reactor, and poll: the weak handle no
// longer upgrades, so the poll reports the reactor gone.
#[test]
fn poll_after_reactor_shutdown() {
    let mut table = SlotTable::new();
    let mut reactor = Reactor::new();
    let mut reg = Registration::new(READ, WRITE);
    let (_id, _action) = reg.register(&mut reactor, &mut table);
    reactor.cleanup_tasks(&mut table);
    drop(reactor);
    assert_eq!(
        reg.poll_read_ready(&mut table, false),
        PollReadiness::Failed(ErrorKind::ReactorGone)
    );
    assert_eq!(
        reg.poll_write_ready(&mut table, false),
        PollReadiness::Failed(ErrorKind::ReactorGone)
    );
}

// Register, let an OS event fire, deregister before the drain: after the
// drain the live list no longer holds the slot, and the registration
// answers as unregistered, so no further wakeup can be requested.
#[test]
fn deregister_while_event_pending() {
    let mut table = SlotTable::new();
    let mut reactor = Reactor::new();
    let mut reg = Registration::new(READ, WRITE);
    let (id, _action) = reg.register(&mut reactor, &mut table);
    reactor.cleanup_tasks(&mut table);
    assert!(reactor.is_live(id));

    let _ = reactor.dispatch_event(&mut table, as_token(id), READ);
    let action = reg.deregister(&mut reactor, &mut table);
    assert!(action.is_some());
    reactor.cleanup_tasks(&mut table);
    assert!(!reactor.is_live(id));
    assert_eq!(
        reg.poll_read_ready(&mut table, true),
        PollReadiness::Failed(ErrorKind::NotRegistered)
    );
}

#[test]
fn reregistration_replaces_the_slot() {
    let mut table = SlotTable::new();
    let mut reactor = Reactor::new();
    let mut reg = Registration::new(READ, WRITE);
    let (first, _) = reg.register(&mut reactor, &mut table);
    let (second, _) = reg.register(&mut reactor, &mut table);
    assert_ne!(first, second);
    assert_eq!(reg.reregister_slot(), second);
    reactor.cleanup_tasks(&mut table);
    assert!(!reactor.is_live(first));
    assert!(reactor.is_live(second));
}

#[test]
fn detach_without_reactor() {
    let mut table = SlotTable::new();
    let mut reactor = Reactor::new();
    let mut reg = Registration::new(READ, WRITE);
    let _ = reg.register(&mut reactor, &mut table);
    drop(reactor);
    reg.detach();
    assert!(!reg.is_registered());
}

#[test]
fn self_wake_transitions() {
    let mut reactor = Reactor::new();
    // wake before the poll starts: observed at the start of the poll
    assert_eq!(reactor.wake(), WakeAction::Deferred);
    assert_eq!(reactor.wake(), WakeAction::Coalesced);
    assert!(reactor.start_poll()); // must not block
    reactor.finish_poll();
    // no wake pending: the poll may block, and a wake during it nudges
    assert!(!reactor.start_poll());
    assert_eq!(reactor.wake(), WakeAction::Nudge);
    assert_eq!(reactor.wake(), WakeAction::Coalesced);
    reactor.finish_poll();
}

#[test]
fn token_round_trip() {
    assert_ne!(as_token(0), WAKE_TOKEN);
    assert_eq!(from_token(as_token(0)), 0);
    assert_eq!(from_token(as_token(41)), 41);
}

#[test]
fn async_io_classification() {
    assert_eq!(async_io(SysOutcome::Done), AsyncIoStep::Ready);
    assert_eq!(async_io(SysOutcome::Interrupted), AsyncIoStep::Retry);
    assert_eq!(async_io(SysOutcome::WouldBlock), AsyncIoStep::Yield);
    assert_eq!(
        async_io(SysOutcome::Fail(ErrorKind::Os)),
        AsyncIoStep::Fail(ErrorKind::Os)
    );
}

#[test]
fn try_mut_read_second_chance() {
    let mut table = SlotTable::new();
    let mut reactor = Reactor::new();
    let mut evented = PollEvented::new(READ, WRITE);
    let first = evented.register(&mut reactor, &mut table);
    assert!(first.is_some());
    assert!(evented.register(&mut reactor, &mut table).is_none()); // one-shot
    reactor.cleanup_tasks(&mut table);
    let id = first.unwrap().0;

    // the first attempt finishes: readiness is never consulted
    assert_eq!(
        evented.try_mut_read(&mut table, true, OpOutcome::Complete, OpOutcome::Complete),
        TryIo::DoneFirst
    );

    // would-block without readiness: pending, waker armed
    assert_eq!(
        evented.try_mut_read(&mut table, true, OpOutcome::WouldBlock, OpOutcome::Complete),
        TryIo::Pending { rearm: false }
    );

    // readiness arrived and the retry finishes
    let _ = reactor.dispatch_event(&mut table, as_token(id), READ);
    assert_eq!(
        evented.try_mut_read(&mut table, true, OpOutcome::WouldBlock, OpOutcome::Complete),
        TryIo::DoneSecond
    );

    // readiness arrived but vanished before the retry: yield and re-arm
    let _ = reactor.dispatch_event(&mut table, as_token(id), READ);
    assert_eq!(
        evented.try_mut_read(&mut table, true, OpOutcome::WouldBlock, OpOutcome::WouldBlock),
        TryIo::Pending { rearm: true }
    );

    // the reactor is gone: the failure surfaces
    assert_eq!(
        evented.try_mut_write(&mut table, false, OpOutcome::WouldBlock, OpOutcome::Complete),
        TryIo::Failed(ErrorKind::ReactorGone)
    );
}

#[test]
fn lazy_handle_binding() {
    let unbound: LazyHandle<u32> = LazyHandle::new();
    assert!(!unbound.is_bound());
    assert_eq!(*unbound.bind(&Some(7)), Some(7));
    assert_eq!(*unbound.bind(&None), None);
    let bound = LazyHandle::from_handle(3u32);
    assert!(bound.is_bound());
    assert_eq!(*bound.bind(&Some(7)), Some(3));
}
