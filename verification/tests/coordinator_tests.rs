use espeak_embedded::coordinator::Coordinator;

#[test]
fn starts_idle_with_no_abort() {
    let c = Coordinator::new();
    assert!(!c.is_busy());
    assert!(!c.abort_pending());
}

#[test]
fn only_one_request_runs_at_a_time() {
    let mut c = Coordinator::new();
    assert!(c.try_begin());
    assert!(c.is_busy());
    // a second request cannot begin while one is in flight
    assert!(!c.try_begin());
    assert!(c.is_busy());
}

#[test]
fn abort_is_raised_only_for_an_in_flight_request() {
    let mut c = Coordinator::new();
    c.request_abort();
    assert!(!c.abort_pending());
    assert!(c.try_begin());
    c.request_abort();
    assert!(c.abort_pending());
}

#[test]
fn finish_returns_to_idle_and_clears_abort() {
    let mut c = Coordinator::new();
    assert!(c.try_begin());
    c.request_abort();
    c.finish();
    assert!(!c.is_busy());
    assert!(!c.abort_pending());
}

#[test]
fn acquiring_clears_a_leftover_abort() {
    let mut c = Coordinator::new();
    assert!(c.try_begin());
    c.request_abort();
    c.finish();
    // the waiting requester acquires Running; the abort must not leak into
    // the new request
    assert!(c.try_begin());
    assert!(!c.abort_pending());
}
