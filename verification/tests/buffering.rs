//! The output-buffer write policy on concrete bytes.

use bfc::semantics::OutBuffer;

#[test]
fn flush_threshold_at_buffer_size() {
    // sixteen non-newline writes into a 16-byte buffer: no flush before
    // the sixteenth, exactly one at it
    let mut buffer = OutBuffer::new();
    for _ in 0..15 {
        buffer.write(b'x', 16);
        assert_eq!(buffer.flushes, 0);
    }
    buffer.write(b'x', 16);
    assert_eq!(buffer.flushes, 1);
    assert_eq!(buffer.cursor, 0);
}

#[test]
fn newline_flushes_immediately() {
    let mut buffer = OutBuffer::new();
    buffer.write(b'a', 16);
    assert_eq!((buffer.cursor, buffer.flushes), (1, 0));
    buffer.write(b'\n', 16);
    assert_eq!((buffer.cursor, buffer.flushes), (0, 1));
    buffer.write(b'b', 16);
    assert_eq!((buffer.cursor, buffer.flushes), (1, 1));
}
