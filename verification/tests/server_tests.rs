use espeak_embedded::coordinator::Coordinator;
use espeak_embedded::server::{RequestServer, Subscriber, SynthDecision, SynthOp};

#[test]
fn synth_opcodes_round_trip_through_scalars() {
    assert_eq!(SynthOp::NewString.to_usize(), 0);
    assert_eq!(SynthOp::Quit.to_usize(), 1);
    assert_eq!(SynthOp::from_usize(0), Some(SynthOp::NewString));
    assert_eq!(SynthOp::from_usize(1), Some(SynthOp::Quit));
    assert_eq!(SynthOp::from_usize(2), None);
    assert_eq!(SynthOp::from_usize(usize::MAX), None);
}

#[test]
fn registering_replaces_the_subscriber_unconditionally() {
    let mut s = RequestServer::new();
    assert!(!s.has_subscriber());
    assert!(s.current_subscriber().is_none());
    s.register_subscriber(Subscriber { sid: [1, 1, 1, 1], cid: 5, op: 2, samples_per_cb: None });
    s.register_subscriber(Subscriber {
        sid: [9, 9, 9, 9],
        cid: 6,
        op: 3,
        samples_per_cb: Some(512),
    });
    let current = s.current_subscriber().unwrap();
    assert_eq!(current.sid, [9, 9, 9, 9]);
    assert_eq!(current.cid, 6);
    assert_eq!(current.op, 3);
    assert_eq!(current.samples_per_cb, Some(512));
}

#[test]
fn synthesize_without_subscriber_is_discarded_untouched() {
    let s = RequestServer::new();
    let mut c = Coordinator::new();
    assert_eq!(s.accept_synthesize(&mut c), SynthDecision::Discarded);
    assert!(!c.is_busy());
    assert!(!c.abort_pending());
}

#[test]
fn synthesize_with_idle_coordinator_starts() {
    let mut s = RequestServer::new();
    let mut c = Coordinator::new();
    s.register_subscriber(Subscriber { sid: [0, 0, 0, 1], cid: 7, op: 1, samples_per_cb: None });
    assert_eq!(s.accept_synthesize(&mut c), SynthDecision::Started);
    assert!(c.is_busy());
    assert!(!c.abort_pending());
}

#[test]
fn synthesize_while_busy_raises_abort_and_waits() {
    let mut s = RequestServer::new();
    let mut c = Coordinator::new();
    s.register_subscriber(Subscriber { sid: [0, 0, 0, 1], cid: 7, op: 1, samples_per_cb: None });
    assert_eq!(s.accept_synthesize(&mut c), SynthDecision::Started);
    // a second request arrives while the first is in flight
    assert_eq!(s.accept_synthesize(&mut c), SynthDecision::MustWait);
    assert!(c.is_busy());
    assert!(c.abort_pending());
    // the in-flight request stops; the retry then acquires cleanly
    c.finish();
    assert_eq!(s.accept_synthesize(&mut c), SynthDecision::Started);
    assert!(!c.abort_pending());
}
