use vstd::prelude::*;

verus! {

/// Graceful-shutdown state of a node: once draining starts, the deadline is fixed.
#[derive(Debug, Clone, Copy, PartialEq, Eq, Structural)]
pub struct DrainState {
    draining: bool,
    deadline_ms: u64,
}

impl DrainState {
    pub closed spec fn spec_draining(&self) -> bool {
        self.draining
    }

    pub closed spec fn spec_deadline_ms(&self) -> u64 {
        self.deadline_ms
    }

    /// A node that is not draining.
    pub fn new() -> (d: Self)
        ensures
            !d.spec_draining(),
            d.spec_deadline_ms() == 0,
    {
        DrainState { draining: false, deadline_ms: 0 }
    }

    pub fn is_draining(&self) -> (r: bool)
        ensures
            r == self.spec_draining(),
    {
        self.draining
    }

    /// The drain deadline in milliseconds since the epoch; 0 while not draining.
    pub fn drain_deadline_ms(&self) -> (r: u64)
        ensures
            r == self.spec_deadline_ms(),
    {
        self.deadline_ms
    }

    /// Whether a deadline is set and `now_ms` has reached it.
    pub fn deadline_reached(&self, now_ms: u64) -> (r: bool)
        ensures
            r == (self.spec_deadline_ms() != 0 && now_ms >= self.spec_deadline_ms()),
    {
        self.deadline_ms != 0 && now_ms >= self.deadline_ms
    }

    /// The state after activation at `now_ms` with the given timeout.
    pub closed spec fn activated(self, timeout_ms: u64, now_ms: u64) -> DrainState {
        if self.draining {
            self
        } else {
            DrainState {
                draining: true,
                deadline_ms: if now_ms + timeout_ms > u64::MAX {
                    u64::MAX
                } else {
                    (now_ms + timeout_ms) as u64
                },
            }
        }
    }

    /// Start draining at `now_ms` with the given timeout; a second activation changes nothing.
    pub fn activate(&mut self, timeout_ms: u64, now_ms: u64)
        ensures
            *final(self) == old(self).activated(timeout_ms, now_ms),
            final(self).spec_draining(),
            old(self).spec_draining() ==> *final(self) == *old(self),
            !old(self).spec_draining() ==> final(self).spec_deadline_ms() == (
            if now_ms + timeout_ms > u64::MAX {
                u64::MAX
            } else {
                (now_ms + timeout_ms) as u64
            }),
    {
        if !self.draining {
            self.draining = true;
            self.deadline_ms = now_ms.saturating_add(timeout_ms);
        }
    }
}

/// Activation is idempotent: activating a second time, with any timeout and at any
/// time, leaves the state of the first activation.
pub proof fn lemma_activate_idempotent(d: DrainState, timeout1: u64, now1: u64, timeout2: u64, now2: u64)
    ensures
        d.activated(timeout1, now1).activated(timeout2, now2) == d.activated(timeout1, now1),
{
}

} // verus!
