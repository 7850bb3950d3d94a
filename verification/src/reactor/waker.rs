//! The reactor's self-wake: a wake-callable that interrupts the blocking
//! OS poll from any thread.
//!
//! It keeps a two-bit state. `polling` is set while the reactor thread is
//! inside (or about to enter) the OS poll; `pending` is set once a wake has
//! arrived that the reactor has not observed yet. A wake while one is
//! already pending coalesces; a wake before the poll starts needs no OS
//! interaction because the poll's start will observe it; only a wake during
//! the poll nudges the OS-level readiness handle registered under the
//! reserved token.

use vstd::prelude::*;

verus! {

/// What a wake call has to do beyond flipping the state.
#[derive(Clone, Copy, Debug, PartialEq, Eq, Structural)]
pub enum WakeAction {
    /// A previous wake is still pending; nothing more to do.
    Coalesced,
    /// The reactor is not polling; the start of the next poll observes the
    /// pending flag by itself.
    Deferred,
    /// The reactor is inside the OS poll; set readiness on the self-wake
    /// source so the poll returns immediately.
    Nudge,
}

/// The self-wake state machine.
#[derive(Debug)]
pub struct ReactorWaker {
    polling: bool,
    pending: bool,
}

impl ReactorWaker {
    /// Whether the reactor thread is inside (or entering) the OS poll.
    pub closed spec fn polling(&self) -> bool {
        self.polling
    }

    /// Whether a wake has arrived and not been observed yet.
    pub closed spec fn pending(&self) -> bool {
        self.pending
    }

    /// A fresh self-wake: no wake pending, nobody polling.
    pub fn new() -> (r: Self)
        ensures
            !r.polling(),
            !r.pending(),
    {
        ReactorWaker { polling: false, pending: false }
    }

    /// A wake from any thread: record it, and report what else to do.
    pub fn wake(&mut self) -> (a: WakeAction)
        ensures
            final(self).pending(),
            final(self).polling() == old(self).polling(),
            a == (if old(self).pending() {
                WakeAction::Coalesced
            } else if old(self).polling() {
                WakeAction::Nudge
            } else {
                WakeAction::Deferred
            }),
    {
        if self.pending {
            WakeAction::Coalesced
        } else {
            self.pending = true;
            if self.polling {
                WakeAction::Nudge
            } else {
                WakeAction::Deferred
            }
        }
    }

    /// The reactor is about to enter the OS poll. Returns whether the poll
    /// must not block (substitute a zero timeout): exactly when a wake is
    /// already pending, in which case the polling flag is left clear.
    pub fn start_poll(&mut self) -> (zero_timeout: bool)
        ensures
            zero_timeout == old(self).pending(),
            final(self).pending() == old(self).pending(),
            final(self).polling() == (old(self).polling() || !old(self).pending()),
    {
        if self.pending {
            true
        } else {
            self.polling = true;
            false
        }
    }

    /// The poll iteration is over: clear both bits for the next round.
    pub fn finish_poll(&mut self)
        ensures
            !final(self).polling(),
            !final(self).pending(),
    {
        self.polling = false;
        self.pending = false;
    }
}

/// A wake is never lost around the OS poll: a wake recorded before
/// `start_poll` forces a zero timeout, so the poll cannot sleep past it;
/// a wake that arrives while the poll runs nudges the OS handle (unless an
/// earlier wake, which already did or will, is still pending).
pub proof fn lemma_self_wake_not_lost(before: ReactorWaker, after: ReactorWaker, a: WakeAction)
    requires
        after.pending(),
        after.polling() == before.polling(),
        a == (if before.pending() {
            WakeAction::Coalesced
        } else if before.polling() {
            WakeAction::Nudge
        } else {
            WakeAction::Deferred
        }),
    ensures
        !before.polling() ==> a != WakeAction::Nudge && after.pending(),
        before.polling() && !before.pending() ==> a == WakeAction::Nudge,
        before.pending() ==> a == WakeAction::Coalesced,
{
}

} // verus!
