//! Audio relay: invoked for every callback the foreign engine makes while
//! synthesizing. Each invocation carries either a chunk of samples or a null
//! pointer signaling completion; the relay packages samples into a
//! fixed-capacity frame, applies the end / abort control tag, decides whether
//! the frame is worth delivering to the subscriber, and tells the engine
//! whether to continue or stop.

use vstd::prelude::*;
use crate::coordinator::Coordinator;

verus! {

/// Fixed capacity of one frame's sample buffer, in 16-bit samples.
pub const FRAME_CAPACITY: usize = 1024;

/// Control tag carried by a frame: the last frame of every request bears
/// `End` on normal completion or `Abort` when the request was preempted.
#[derive(Clone, Copy, Debug, PartialEq, Eq, Structural)]
pub enum ControlTag {
    End,
    Abort,
}

/// Unit of delivery to the subscriber: up to `FRAME_CAPACITY` samples plus an
/// optional control tag.
pub struct Frame {
    pub samples: Vec<u16>,
    pub control: Option<ControlTag>,
}

impl Frame {
    pub open spec fn wf(self) -> bool {
        self.samples@.len() <= FRAME_CAPACITY
    }

    /// A terminal frame closes its request's stream: no later frame of the
    /// same request follows it.
    pub open spec fn is_terminal(self) -> bool {
        self.control is Some
    }
}

/// One word-or-sentence event record as the foreign engine reports it
/// alongside samples. The relay forwards audio only and reads none of these
/// fields; they are kept as plain values for callers that inspect them.
#[allow(non_camel_case_types)]
pub struct espeak_EVENT {
    pub event_type: u32,
    pub unique_identifier: u32,
    pub text_position: i32,
    pub audio_position: i32,
    pub sample: i32,
}

impl espeak_EVENT {
    /// The engine terminates each event list with an event of type zero.
    pub fn is_list_terminator(&self) -> (r: bool)
        ensures
            r == (self.event_type == 0),
    {
        self.event_type == 0
    }
}

/// The samples packed into a frame from one callback: the whole chunk, or its
/// first `FRAME_CAPACITY` samples when the engine hands over more than a
/// frame can carry (a misconfiguration of the engine's chunk size).
pub open spec fn packed_samples(input: Seq<u16>) -> Seq<u16> {
    if input.len() <= FRAME_CAPACITY {
        input
    } else {
        input.take(FRAME_CAPACITY as int)
    }
}

/// The samples a frame built from this callback carries: a null sample
/// pointer contributes none.
pub open spec fn frame_samples(samples: Option<Seq<u16>>) -> Seq<u16> {
    match samples {
        Some(s) => packed_samples(s),
        None => Seq::<u16>::empty(),
    }
}

/// The control tag for one callback: a pending abort overrides everything,
/// a null sample pointer means the synthesis completed, anything else is an
/// ordinary data frame.
pub open spec fn control_of(samples: Option<Seq<u16>>, abort: bool) -> Option<ControlTag> {
    if abort {
        Some(ControlTag::Abort)
    } else if samples is None {
        Some(ControlTag::End)
    } else {
        None
    }
}

/// Whether this callback yields a frame worth delivering: it must carry
/// sample data or a control tag. Pure zero-length, tag-free metadata events
/// are dropped, not forwarded.
pub open spec fn should_send(samples: Option<Seq<u16>>, abort: bool) -> bool {
    ||| (samples matches Some(s) && s.len() > 0)
    ||| control_of(samples, abort) is Some
}

/// The view of the relay's sample input: `None` models the engine's null
/// pointer at end of synthesis.
pub open spec fn samples_view(samples: Option<&Vec<u16>>) -> Option<Seq<u16>> {
    match samples {
        Some(v) => Some(v@),
        None => None,
    }
}

/// One invocation of the relay, synchronously from the engine's synthesis
/// callback. Returns the frame to deliver to the subscriber, if any, and the
/// instruction for the engine: `true` to stop synthesizing, used uniformly
/// for end and abort, `false` to continue. With no subscriber registered the
/// frame is dropped, but a pending abort still reaches the engine.
pub fn relay_frame(
    samples: Option<&Vec<u16>>,
    coord: &Coordinator,
    has_subscriber: bool,
) -> (r: (Option<Frame>, bool))
    ensures
        ({
            let (frame, stop) = r;
            let sv = samples_view(samples);
            let abort = coord.is_abort_requested();
            &&& !has_subscriber ==> frame is None && stop == abort
            &&& has_subscriber ==> {
                &&& stop == (control_of(sv, abort) is Some)
                &&& (frame is Some <==> should_send(sv, abort))
                &&& (frame matches Some(f) ==> {
                    &&& f.wf()
                    &&& f.samples@ == frame_samples(sv)
                    &&& f.control == control_of(sv, abort)
                })
            }
        }),
{
    let abort = coord.abort_pending();
    if !has_subscriber {
        return (None, abort);
    }
    let mut data: Vec<u16> = Vec::new();
    let mut has_samples = false;
    let mut is_null = true;
    match samples {
        Some(v) => {
            is_null = false;
            has_samples = v.len() > 0;
            let n: usize = if v.len() <= FRAME_CAPACITY {
                v.len()
            } else {
                FRAME_CAPACITY
            };
            let mut i: usize = 0;
            while i < n
                invariant
                    i <= n,
                    n <= v@.len(),
                    data@ == v@.take(i as int),
                decreases n - i,
            {
                data.push(v[i]);
                i += 1;
                proof {
                    assert(data@ =~= v@.take(i as int));
                }
            }
            proof {
                if v@.len() <= FRAME_CAPACITY {
                    assert(v@.take(v@.len() as int) =~= v@);
                }
            }
        }
        None => {}
    }
    let control: Option<ControlTag> = if abort {
        Some(ControlTag::Abort)
    } else if is_null {
        Some(ControlTag::End)
    } else {
        None
    };
    let stop = control.is_some();
    if has_samples || stop {
        (Some(Frame { samples: data, control }), stop)
    } else {
        (None, stop)
    }
}

} // verus!
