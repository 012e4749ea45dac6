use espeak_embedded::diag::LineBuffer;

#[test]
fn bytes_accumulate_until_a_line_feed() {
    let mut lb = LineBuffer::new();
    assert_eq!(lb.putchar(b'h'), None);
    assert_eq!(lb.putchar(b'i'), None);
    assert_eq!(lb.putchar(b'\n'), Some(b"hi".to_vec()));
    // the buffer is clear afterwards
    assert_eq!(lb.putchar(b'o'), None);
    assert_eq!(lb.putchar(b'\n'), Some(b"o".to_vec()));
}

#[test]
fn carriage_return_also_terminates_a_line() {
    let mut lb = LineBuffer::new();
    assert_eq!(lb.putchar(b'x'), None);
    assert_eq!(lb.putchar(b'\r'), Some(b"x".to_vec()));
}

#[test]
fn terminator_on_empty_buffer_emits_an_empty_line() {
    let mut lb = LineBuffer::new();
    assert_eq!(lb.putchar(b'\n'), Some(Vec::new()));
}
