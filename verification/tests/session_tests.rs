use espeak_embedded::coordinator::Coordinator;
use espeak_embedded::heap::HeapEmulator;
use espeak_embedded::relay::ControlTag;
use espeak_embedded::server::{RequestServer, Subscriber, SynthDecision};
use espeak_embedded::session::run_request;

fn begin() -> (Coordinator, HeapEmulator) {
    let mut c = Coordinator::new();
    assert!(c.try_begin());
    (c, HeapEmulator::new())
}

#[test]
fn empty_text_still_yields_exactly_one_terminal_frame() {
    // an empty synthesis produces no sample chunks, only the null callback
    let (mut c, mut h) = begin();
    let chunks: Vec<Vec<u16>> = Vec::new();
    let frames = run_request(&mut c, &mut h, &chunks, None, true);
    assert_eq!(frames.len(), 1);
    assert_eq!(frames[0].control, Some(ControlTag::End));
    assert_eq!(frames[0].samples.len(), 0);
    assert!(!c.is_busy());
}

#[test]
fn hello_stream_ends_with_exactly_one_end_frame() {
    let (mut c, mut h) = begin();
    let chunks: Vec<Vec<u16>> = vec![vec![10, 11], vec![12, 13, 14]];
    let frames = run_request(&mut c, &mut h, &chunks, None, true);
    assert_eq!(frames.len(), 3);
    assert_eq!(frames[0].samples, vec![10, 11]);
    assert_eq!(frames[0].control, None);
    assert_eq!(frames[1].samples, vec![12, 13, 14]);
    assert_eq!(frames[1].control, None);
    assert_eq!(frames[2].control, Some(ControlTag::End));
    // exactly one terminal frame, and it is the last
    let terminals = frames.iter().filter(|f| f.control.is_some()).count();
    assert_eq!(terminals, 1);
    assert!(!c.is_busy());
}

#[test]
fn metadata_chunks_are_dropped_from_the_stream() {
    let (mut c, mut h) = begin();
    let chunks: Vec<Vec<u16>> = vec![Vec::new(), vec![1], Vec::new()];
    let frames = run_request(&mut c, &mut h, &chunks, None, true);
    assert_eq!(frames.len(), 2);
    assert_eq!(frames[0].samples, vec![1]);
    assert_eq!(frames[0].control, None);
    assert_eq!(frames[1].control, Some(ControlTag::End));
}

#[test]
fn preempted_request_ends_with_abort_and_reaches_idle_before_next_starts() {
    let (mut c, mut h) = begin();
    // request A: the abort signal becomes visible at its second callback
    let chunks_a: Vec<Vec<u16>> = vec![vec![1, 2], vec![3, 4], vec![5, 6]];
    let frames_a = run_request(&mut c, &mut h, &chunks_a, Some(1), true);
    assert_eq!(frames_a.len(), 2);
    assert_eq!(frames_a[0].samples, vec![1, 2]);
    assert_eq!(frames_a[0].control, None);
    // A's stream ends with an Abort tag; the third chunk is never delivered
    assert_eq!(frames_a[1].samples, vec![3, 4]);
    assert_eq!(frames_a[1].control, Some(ControlTag::Abort));
    // the worker is Idle before B can begin
    assert!(!c.is_busy());
    assert!(c.try_begin());
    // request B runs to completion with a clean End
    let chunks_b: Vec<Vec<u16>> = vec![vec![7]];
    let frames_b = run_request(&mut c, &mut h, &chunks_b, None, true);
    assert_eq!(frames_b.len(), 2);
    assert_eq!(frames_b[1].control, Some(ControlTag::End));
}

#[test]
fn abort_arriving_at_the_null_callback_overrides_end() {
    let (mut c, mut h) = begin();
    let chunks: Vec<Vec<u16>> = vec![vec![1]];
    let frames = run_request(&mut c, &mut h, &chunks, Some(1), true);
    assert_eq!(frames.len(), 2);
    assert_eq!(frames[0].control, None);
    assert_eq!(frames[1].control, Some(ControlTag::Abort));
    assert_eq!(frames[1].samples.len(), 0);
}

#[test]
fn abort_before_first_callback_yields_single_abort_frame() {
    let (mut c, mut h) = begin();
    let chunks: Vec<Vec<u16>> = vec![vec![1, 2], vec![3]];
    let frames = run_request(&mut c, &mut h, &chunks, Some(0), true);
    assert_eq!(frames.len(), 1);
    assert_eq!(frames[0].samples, vec![1, 2]);
    assert_eq!(frames[0].control, Some(ControlTag::Abort));
}

#[test]
fn registered_subscriber_receives_frames_on_its_operation() {
    // RegisterSubscriber(dst=X, op=7); Synthesize("hello")
    let mut server = RequestServer::new();
    let mut c = Coordinator::new();
    let mut h = HeapEmulator::new();
    server.register_subscriber(Subscriber {
        sid: [1, 2, 3, 4],
        cid: 11,
        op: 7,
        samples_per_cb: None,
    });
    assert!(server.has_subscriber());
    let dst = server.current_subscriber().unwrap();
    assert_eq!(dst.cid, 11);
    assert_eq!(dst.op, 7);
    assert_eq!(server.accept_synthesize(&mut c), SynthDecision::Started);
    let chunks: Vec<Vec<u16>> = vec![vec![100, 200, 300]];
    let frames = run_request(&mut c, &mut h, &chunks, None, true);
    assert!(frames.len() >= 1);
    let terminals = frames.iter().filter(|f| f.control.is_some()).count();
    assert_eq!(terminals, 1);
    assert_eq!(frames.last().unwrap().control, Some(ControlTag::End));
    for f in &frames {
        assert!(f.samples.len() <= espeak_embedded::relay::FRAME_CAPACITY);
    }
}

#[test]
fn with_no_subscriber_no_frames_are_ever_delivered() {
    // Synthesize("hello") then Synthesize("world"), no subscriber registered
    let server = RequestServer::new();
    let mut c = Coordinator::new();
    let mut h = HeapEmulator::new();
    assert_eq!(server.accept_synthesize(&mut c), SynthDecision::Discarded);
    assert!(!c.is_busy());
    // even if a request were driven with no subscriber, nothing is delivered
    assert!(c.try_begin());
    let hello: Vec<Vec<u16>> = vec![vec![1, 2]];
    let frames_hello = run_request(&mut c, &mut h, &hello, None, false);
    assert_eq!(frames_hello.len(), 0);
    assert_eq!(server.accept_synthesize(&mut c), SynthDecision::Discarded);
    assert!(c.try_begin());
    let world: Vec<Vec<u16>> = vec![vec![3, 4]];
    let frames_world = run_request(&mut c, &mut h, &world, None, false);
    assert_eq!(frames_world.len(), 0);
    assert!(!c.is_busy());
}

#[test]
fn run_request_resets_the_heap_arena() {
    let (mut c, mut h) = begin();
    let leaked = h.allocate(32).unwrap();
    assert_eq!(h.live_count(), 1);
    let chunks: Vec<Vec<u16>> = Vec::new();
    let _ = run_request(&mut c, &mut h, &chunks, None, true);
    // the engine does not reliably pair allocations with releases; each
    // request starts from a clean arena
    assert_eq!(h.live_count(), 0);
    assert_eq!(h.region_len(leaked), None);
    // and addresses stay fresh across the reset
    let fresh = h.allocate(8).unwrap();
    assert_ne!(fresh, leaked);
}
