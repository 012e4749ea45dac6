//! Worker-task model: drives one synthesis request end to end. The foreign
//! engine, given the request's text, produces some sequence of sample chunks,
//! invoking the relay once per chunk and once more with a null pointer at the
//! end of synthesis — unless the relay tells it to stop early. The worker
//! resets the heap arena first and returns the coordinator to Idle afterwards,
//! whatever the outcome.

use vstd::prelude::*;
use crate::coordinator::Coordinator;
use crate::heap::HeapEmulator;
use crate::relay::{relay_frame, ControlTag, Frame, packed_samples};

verus! {

/// Whether the cooperative abort signal raised before callback `k` (if the
/// request is preempted at all) is visible at callback `i`: once raised it
/// stays visible for the rest of the request.
pub open spec fn abort_seen(abort_at: Option<usize>, i: int) -> bool {
    abort_at matches Some(k) && i >= k
}

/// The spec-level image of a delivered frame: its samples and control tag.
pub open spec fn frame_view(f: Frame) -> (Seq<u16>, Option<ControlTag>) {
    (f.samples@, f.control)
}

/// The view of the engine's chunk list: one sample sequence per callback.
pub open spec fn chunks_view(chunks: &Vec<Vec<u16>>) -> Seq<Seq<u16>> {
    Seq::new(chunks@.len(), |i: int| chunks@[i]@)
}

/// The stream of frames a registered subscriber receives from callback `i`
/// onward: data frames for nonempty chunks in production order, zero-length
/// tag-free metadata callbacks dropped, closed by a single terminal frame —
/// `Abort` at the first callback that observes the abort signal, otherwise
/// `End` at the null callback after the last chunk.
pub open spec fn expected_stream(
    chunks: Seq<Seq<u16>>,
    abort_at: Option<usize>,
    i: int,
) -> Seq<(Seq<u16>, Option<ControlTag>)>
    decreases chunks.len() - i,
    when 0 <= i <= chunks.len()
{
    if i == chunks.len() {
        seq![
            (
                Seq::<u16>::empty(),
                if abort_seen(abort_at, i) {
                    Some(ControlTag::Abort)
                } else {
                    Some(ControlTag::End)
                },
            ),
        ]
    } else if abort_seen(abort_at, i) {
        seq![(packed_samples(chunks[i]), Some(ControlTag::Abort))]
    } else if chunks[i].len() > 0 {
        seq![(packed_samples(chunks[i]), None::<ControlTag>)] + expected_stream(
            chunks,
            abort_at,
            i + 1,
        )
    } else {
        expected_stream(chunks, abort_at, i + 1)
    }
}

/// The tag that closes a request's stream: `Abort` when the abort signal
/// becomes visible at any of the request's callbacks, `End` otherwise.
pub open spec fn expected_terminal(chunks: Seq<Seq<u16>>, abort_at: Option<usize>) -> ControlTag {
    if abort_at matches Some(k) && k <= chunks.len() {
        ControlTag::Abort
    } else {
        ControlTag::End
    }
}

proof fn lemma_stream_shape_from(chunks: Seq<Seq<u16>>, abort_at: Option<usize>, i: int)
    requires
        0 <= i <= chunks.len(),
    ensures
        ({
            let s = expected_stream(chunks, abort_at, i);
            &&& s.len() >= 1
            &&& s.last().1 == Some(expected_terminal(chunks, abort_at))
            &&& forall|j: int| 0 <= j < s.len() - 1 ==> s[j].1 is None
        }),
    decreases chunks.len() - i,
{
    let s = expected_stream(chunks, abort_at, i);
    if i == chunks.len() {
    } else if abort_seen(abort_at, i) {
    } else if chunks[i].len() > 0 {
        lemma_stream_shape_from(chunks, abort_at, i + 1);
        let rest = expected_stream(chunks, abort_at, i + 1);
        assert(s == seq![(packed_samples(chunks[i]), None::<ControlTag>)] + rest);
        assert(s.last() == rest.last());
        assert forall|j: int| 0 <= j < s.len() - 1 implies s[j].1 is None by {
            if j >= 1 {
                assert(s[j] == rest[j - 1]);
            }
        }
    } else {
        lemma_stream_shape_from(chunks, abort_at, i + 1);
    }
}

/// Every request's stream closes with exactly one terminal frame, carried by
/// its last frame — `End` on normal completion, `Abort` when the request was
/// preempted — and no frame of the request follows it. This holds for every
/// chunk sequence the engine may produce, the empty one included, and every
/// abort schedule.
pub proof fn lemma_exactly_one_terminal(chunks: Seq<Seq<u16>>, abort_at: Option<usize>)
    ensures
        ({
            let s = expected_stream(chunks, abort_at, 0);
            &&& s.len() >= 1
            &&& s.last().1 == Some(expected_terminal(chunks, abort_at))
            &&& forall|j: int| 0 <= j < s.len() - 1 ==> s[j].1 is None
        }),
{
    lemma_stream_shape_from(chunks, abort_at, 0);
}

/// A request preempted while in flight — the abort signal becomes visible at
/// one of its callbacks — still closes its stream, with its terminal frame
/// tagged `Abort`. The next request can begin only once the coordinator has
/// returned to Idle (`try_begin` admits exactly then, and `run_request` ends
/// Idle), so the preempted stream's terminal frame precedes every frame of
/// the request that displaced it.
pub proof fn lemma_preempted_stream_aborts(chunks: Seq<Seq<u16>>, k: usize)
    requires
        k <= chunks.len(),
    ensures
        ({
            let s = expected_stream(chunks, Some(k), 0);
            &&& s.len() >= 1
            &&& s.last().1 == Some(ControlTag::Abort)
            &&& forall|j: int| 0 <= j < s.len() - 1 ==> s[j].1 is None
        }),
{
    lemma_stream_shape_from(chunks, Some(k), 0);
}

/// Services one synthesis request end to end, as the worker task does: reset
/// the heap arena, let the engine produce its chunks through the relay, and
/// mark the coordinator Idle again whatever the outcome. `chunks` holds the
/// sample chunks the engine produces for the request's text, one per
/// callback; `abort_at` is the callback index from which the cooperative
/// abort signal is visible, if the request is preempted. Returns the frames
/// delivered to the subscriber, in production order.
pub fn run_request(
    coord: &mut Coordinator,
    heap: &mut HeapEmulator,
    chunks: &Vec<Vec<u16>>,
    abort_at: Option<usize>,
    has_subscriber: bool,
) -> (delivered: Vec<Frame>)
    requires
        old(coord).wf(),
        old(coord).is_running(),
        !old(coord).is_abort_requested(),
        old(heap).wf(),
    ensures
        final(coord).wf(),
        final(coord).is_idle(),
        !final(coord).is_abort_requested(),
        final(heap).wf(),
        final(heap).live() == Map::<u64, Seq<u8>>::empty(),
        final(heap).frontier() == old(heap).frontier(),
        !has_subscriber ==> delivered@.len() == 0,
        has_subscriber ==> delivered@.map_values(|f: Frame| frame_view(f)) == expected_stream(
            chunks_view(chunks),
            abort_at,
            0,
        ),
        forall|j: int| 0 <= j < delivered@.len() ==> (#[trigger] delivered@[j]).wf(),
{
    heap.reset();
    let ghost cv = chunks_view(chunks);
    let mut delivered: Vec<Frame> = Vec::new();
    let n = chunks.len();
    let mut i: usize = 0;
    let mut stopped = false;
    while i < n && !stopped
        invariant
            i <= n,
            n == chunks@.len(),
            cv == chunks_view(chunks),
            coord.wf(),
            coord.is_running(),
            coord.is_abort_requested() == abort_seen(abort_at, i - 1),
            heap.wf(),
            heap.live() == Map::<u64, Seq<u8>>::empty(),
            heap.frontier() == old(heap).frontier(),
            !has_subscriber ==> delivered@.len() == 0 && stopped == abort_seen(abort_at, i - 1),
            has_subscriber && !stopped ==> delivered@.map_values(|f: Frame| frame_view(f))
                + expected_stream(cv, abort_at, i as int) == expected_stream(cv, abort_at, 0),
            has_subscriber && stopped ==> delivered@.map_values(|f: Frame| frame_view(f))
                == expected_stream(cv, abort_at, 0),
            forall|j: int| 0 <= j < delivered@.len() ==> (#[trigger] delivered@[j]).wf(),
        decreases n - i,
    {
        let abort_now = match abort_at {
            Some(k) => i >= k,
            None => false,
        };
        if abort_now {
            coord.request_abort();
        }
        proof {
            assert(coord.is_abort_requested() == abort_seen(abort_at, i as int));
        }
        let ghost pre = delivered@.map_values(|f: Frame| frame_view(f));
        let (frame, stop) = relay_frame(Some(&chunks[i]), coord, has_subscriber);
        proof {
            assert(cv[i as int] == chunks@[i as int]@);
        }
        match frame {
            Some(f) => {
                delivered.push(f);
                proof {
                    assert(delivered@.map_values(|f: Frame| frame_view(f)) =~= pre.push(
                        frame_view(delivered@.last()),
                    ));
                }
            }
            None => {}
        }
        stopped = stop;
        proof {
            if has_subscriber {
                let here = expected_stream(cv, abort_at, i as int);
                let next = expected_stream(cv, abort_at, i + 1);
                if abort_seen(abort_at, i as int) {
                    assert(here == seq![(packed_samples(cv[i as int]), Some(ControlTag::Abort))]);
                    assert(delivered@.map_values(|f: Frame| frame_view(f)) =~= pre + here);
                    assert(pre + here == expected_stream(cv, abort_at, 0));
                } else if cv[i as int].len() > 0 {
                    assert(here == seq![(packed_samples(cv[i as int]), None::<ControlTag>)] + next);
                    assert(delivered@.map_values(|f: Frame| frame_view(f)) + next =~= pre + here);
                } else {
                    assert(here == next);
                }
            }
        }
        i += 1;
    }
    if !stopped {
        let abort_now = match abort_at {
            Some(k) => i >= k,
            None => false,
        };
        if abort_now {
            coord.request_abort();
        }
        proof {
            assert(coord.is_abort_requested() == abort_seen(abort_at, i as int));
        }
        let ghost pre = delivered@.map_values(|f: Frame| frame_view(f));
        let (frame, _stop) = relay_frame(None, coord, has_subscriber);
        match frame {
            Some(f) => {
                delivered.push(f);
                proof {
                    assert(delivered@.map_values(|f: Frame| frame_view(f)) =~= pre.push(
                        frame_view(delivered@.last()),
                    ));
                }
            }
            None => {}
        }
        proof {
            if has_subscriber {
                let here = expected_stream(cv, abort_at, i as int);
                assert(i == n);
                assert(delivered@.map_values(|f: Frame| frame_view(f)) =~= pre + here);
                assert(pre + here == expected_stream(cv, abort_at, 0));
            }
        }
    }
    coord.finish();
    delivered
}

} // verus!
