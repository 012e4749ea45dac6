//! Request-server decisions: the accept loop's per-message logic. The server
//! keeps the registered subscriber, hands accepted synthesis work to the
//! worker through the coordinator, and never blocks inside a decision — the
//! cooperative wait for a preempted request is a sequence of retried
//! decisions, each one raising the abort signal and testing the coordinator
//! again.

use vstd::prelude::*;
use crate::coordinator::Coordinator;

verus! {

/// The registered destination for frames: a server id and connection to send
/// on, the operation selector to tag deliveries with, and an optional
/// frames-per-callback hint (reserved).
#[derive(Clone, Copy, Debug)]
pub struct Subscriber {
    pub sid: [u32; 4],
    pub cid: u32,
    pub op: u32,
    pub samples_per_cb: Option<u32>,
}

/// Opcodes of the worker's private message channel.
#[derive(Clone, Copy, Debug, PartialEq, Eq, Structural)]
pub enum SynthOp {
    /// New string for synthesis
    NewString,
    /// Exit server
    Quit,
}

impl SynthOp {
    /// The scalar this opcode travels as.
    pub fn to_usize(&self) -> (r: usize)
        ensures
            r == (match *self {
                SynthOp::NewString => 0usize,
                SynthOp::Quit => 1usize,
            }),
    {
        match *self {
            SynthOp::NewString => 0,
            SynthOp::Quit => 1,
        }
    }

    /// Decodes a received scalar; an unknown value is reported as `None` so
    /// the caller can log and drop the message rather than fail.
    pub fn from_usize(v: usize) -> (r: Option<SynthOp>)
        ensures
            r == (if v == 0 {
                Some(SynthOp::NewString)
            } else if v == 1 {
                Some(SynthOp::Quit)
            } else {
                None::<SynthOp>
            }),
    {
        if v == 0 {
            Some(SynthOp::NewString)
        } else if v == 1 {
            Some(SynthOp::Quit)
        } else {
            None
        }
    }
}

/// Outcome of one attempt to accept a synthesize request.
#[derive(Clone, Copy, Debug, PartialEq, Eq, Structural)]
pub enum SynthDecision {
    /// No subscriber is registered: synthesis with no consumer is a defined
    /// no-op, so the request is accepted and discarded.
    Discarded,
    /// The coordinator was Idle: the request now runs.
    Started,
    /// A request is in flight: the abort signal has been raised for it, and
    /// the caller must yield and try again until the coordinator is Idle.
    MustWait,
}

/// The accept loop's state: only the registered subscriber. Per-request state
/// lives in the coordinator.
pub struct RequestServer {
    subscriber: Option<Subscriber>,
}

impl RequestServer {
    /// The currently registered subscriber, if any.
    pub closed spec fn registered(self) -> Option<Subscriber> {
        self.subscriber
    }

    /// A fresh server with no subscriber registered.
    pub fn new() -> (s: RequestServer)
        ensures
            s.registered() is None,
    {
        RequestServer { subscriber: None }
    }

    /// Atomically replaces the current subscriber: immediate, unconditional,
    /// no acknowledgement and no draining of in-flight work to the old
    /// subscriber; effective for all subsequent requests.
    pub fn register_subscriber(&mut self, sub: Subscriber)
        ensures
            final(self).registered() == Some(sub),
    {
        self.subscriber = Some(sub);
    }

    /// Whether any subscriber is registered.
    pub fn has_subscriber(&self) -> (b: bool)
        ensures
            b == (self.registered() is Some),
    {
        match self.subscriber {
            Some(_) => true,
            None => false,
        }
    }

    /// The current subscriber, for routing a frame.
    pub fn current_subscriber(&self) -> (r: Option<Subscriber>)
        ensures
            r == self.registered(),
    {
        self.subscriber
    }

    /// One attempt of the accept path for a synthesize request. With no
    /// subscriber the request is discarded untouched. Otherwise the request
    /// begins exactly when the coordinator is Idle; while another request is
    /// in flight the abort signal is raised for it and the caller must retry,
    /// so the new request never begins before the previous one has fully
    /// stopped.
    pub fn accept_synthesize(&self, coord: &mut Coordinator) -> (d: SynthDecision)
        requires
            old(coord).wf(),
        ensures
            final(coord).wf(),
            self.registered() is None ==> d == SynthDecision::Discarded && *final(coord) == *old(
                coord,
            ),
            self.registered() is Some && old(coord).is_idle() ==> d == SynthDecision::Started
                && final(coord).is_running() && !final(coord).is_abort_requested(),
            self.registered() is Some && old(coord).is_running() ==> d == SynthDecision::MustWait
                && final(coord).is_running() && final(coord).is_abort_requested(),
    {
        match self.subscriber {
            None => SynthDecision::Discarded,
            Some(_) => {
                if coord.try_begin() {
                    SynthDecision::Started
                } else {
                    coord.request_abort();
                    SynthDecision::MustWait
                }
            }
        }
    }
}

} // verus!
