use espeak_embedded::coordinator::Coordinator;
use espeak_embedded::relay::{relay_frame, ControlTag, FRAME_CAPACITY, espeak_EVENT};

fn running_coordinator(abort: bool) -> Coordinator {
    let mut c = Coordinator::new();
    assert!(c.try_begin());
    if abort {
        c.request_abort();
    }
    c
}

#[test]
fn data_chunk_becomes_untagged_frame() {
    let c = running_coordinator(false);
    let samples: Vec<u16> = vec![1, 2, 3];
    let (frame, stop) = relay_frame(Some(&samples), &c, true);
    let f = frame.expect("a data chunk must be forwarded");
    assert_eq!(f.samples, vec![1, 2, 3]);
    assert_eq!(f.control, None);
    assert!(!stop);
}

#[test]
fn null_samples_give_end_frame_and_stop() {
    let c = running_coordinator(false);
    let (frame, stop) = relay_frame(None, &c, true);
    let f = frame.expect("end of synthesis must be forwarded");
    assert_eq!(f.control, Some(ControlTag::End));
    assert_eq!(f.samples.len(), 0);
    assert!(stop);
}

#[test]
fn abort_overrides_end() {
    let c = running_coordinator(true);
    let (frame, stop) = relay_frame(None, &c, true);
    let f = frame.expect("the terminal frame must be forwarded");
    assert_eq!(f.control, Some(ControlTag::Abort));
    assert!(stop);
}

#[test]
fn abort_tags_a_data_frame_and_stops() {
    let c = running_coordinator(true);
    let samples: Vec<u16> = vec![9];
    let (frame, stop) = relay_frame(Some(&samples), &c, true);
    let f = frame.expect("the aborting frame must be forwarded");
    assert_eq!(f.control, Some(ControlTag::Abort));
    assert_eq!(f.samples, vec![9]);
    assert!(stop);
}

#[test]
fn zero_length_metadata_chunk_is_dropped() {
    let c = running_coordinator(false);
    let samples: Vec<u16> = Vec::new();
    let (frame, stop) = relay_frame(Some(&samples), &c, true);
    assert!(frame.is_none());
    assert!(!stop);
}

#[test]
fn no_subscriber_drops_frames_but_abort_still_propagates() {
    let idle = running_coordinator(false);
    let samples: Vec<u16> = vec![1, 2];
    let (frame, stop) = relay_frame(Some(&samples), &idle, false);
    assert!(frame.is_none());
    assert!(!stop);
    let aborting = running_coordinator(true);
    let (frame2, stop2) = relay_frame(Some(&samples), &aborting, false);
    assert!(frame2.is_none());
    assert!(stop2);
    let (frame3, stop3) = relay_frame(None, &aborting, false);
    assert!(frame3.is_none());
    assert!(stop3);
}

#[test]
fn oversized_chunk_is_truncated_to_frame_capacity() {
    let c = running_coordinator(false);
    let samples: Vec<u16> = (0..(FRAME_CAPACITY as u16 + 76)).collect();
    let (frame, stop) = relay_frame(Some(&samples), &c, true);
    let f = frame.expect("the oversized chunk must still be forwarded");
    assert_eq!(f.samples.len(), FRAME_CAPACITY);
    for i in 0..FRAME_CAPACITY {
        assert_eq!(f.samples[i], i as u16);
    }
    assert!(!stop);
}

#[test]
fn event_list_terminator_has_type_zero() {
    let terminator = espeak_EVENT {
        event_type: 0,
        unique_identifier: 0,
        text_position: 0,
        audio_position: 0,
        sample: 0,
    };
    assert!(terminator.is_list_terminator());
    let word = espeak_EVENT {
        event_type: 1,
        unique_identifier: 3,
        text_position: 5,
        audio_position: 120,
        sample: 960,
    };
    assert!(!word.is_list_terminator());
}
