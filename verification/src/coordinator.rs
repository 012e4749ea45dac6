//! Cancellation coordinator: the Idle / Running / Running+AbortRequested
//! state machine that serializes synthesis requests. A new request may begin
//! only from Idle; a request arriving while one is in flight raises the
//! cooperative abort signal and must keep retrying until the in-flight
//! request has fully stopped and the coordinator has returned to Idle.

use vstd::prelude::*;

verus! {

/// The coordinator shared by the request server and the worker: a running
/// flag enforcing at-most-one-in-flight synthesis, and an abort flag raised
/// to preempt the in-flight request cooperatively.
pub struct Coordinator {
    running: bool,
    abort_requested: bool,
}

impl Coordinator {
    /// True while a synthesis request is being serviced.
    pub closed spec fn is_running(self) -> bool {
        self.running
    }

    /// True while the in-flight request has been asked to stop.
    pub closed spec fn is_abort_requested(self) -> bool {
        self.abort_requested
    }

    /// No request in flight.
    pub open spec fn is_idle(self) -> bool {
        !self.is_running()
    }

    /// An abort can only ever be pending for a request that is in flight.
    pub closed spec fn wf(self) -> bool {
        self.abort_requested ==> self.running
    }

    /// The initial state: Idle, no abort pending.
    pub fn new() -> (c: Coordinator)
        ensures
            c.wf(),
            c.is_idle(),
            !c.is_abort_requested(),
    {
        Coordinator { running: false, abort_requested: false }
    }

    /// Tries to begin servicing a new request. Acquisition succeeds exactly
    /// when the coordinator is Idle — while a request is in flight no later
    /// request can begin, so no frame of a later request can ever precede the
    /// earlier request's terminal frame. Acquiring clears any abort left over
    /// from the preemption handshake.
    pub fn try_begin(&mut self) -> (acquired: bool)
        requires
            old(self).wf(),
        ensures
            final(self).wf(),
            acquired == old(self).is_idle(),
            acquired ==> final(self).is_running() && !final(self).is_abort_requested(),
            !acquired ==> *final(self) == *old(self),
    {
        if self.running {
            false
        } else {
            self.running = true;
            self.abort_requested = false;
            true
        }
    }

    /// Raises the cooperative abort signal for the in-flight request. The
    /// audio relay observes it on the engine's next callback and instructs
    /// the engine to stop. With nothing in flight there is nothing to abort
    /// and the state is unchanged.
    pub fn request_abort(&mut self)
        requires
            old(self).wf(),
        ensures
            final(self).wf(),
            final(self).is_running() == old(self).is_running(),
            old(self).is_running() ==> final(self).is_abort_requested(),
            old(self).is_idle() ==> *final(self) == *old(self),
    {
        if self.running {
            self.abort_requested = true;
        }
    }

    /// True while the in-flight request has been asked to stop; polled by the
    /// audio relay on every callback from the engine.
    pub fn abort_pending(&self) -> (b: bool)
        ensures
            b == self.is_abort_requested(),
    {
        self.abort_requested
    }

    /// True while a request is being serviced.
    pub fn is_busy(&self) -> (b: bool)
        ensures
            b == self.is_running(),
    {
        self.running
    }

    /// Marks the in-flight request finished: called by the worker only after
    /// the blocking synthesis call has returned, which the engine guarantees
    /// happens after it honors the last stop instruction. The coordinator
    /// returns to Idle whatever the outcome was.
    pub fn finish(&mut self)
        requires
            old(self).wf(),
        ensures
            final(self).wf(),
            final(self).is_idle(),
            !final(self).is_abort_requested(),
    {
        self.running = false;
        self.abort_requested = false;
    }
}

} // verus!
