use sync_clipboard::framing::{
    encode_frame, frame_length, length_prefix, parse_frame, FrameError, MAX_FRAME_LEN,
};

#[test]
fn length_prefix_is_big_endian() {
    assert_eq!(length_prefix(0x01020304), [1, 2, 3, 4]);
    assert_eq!(length_prefix(5), [0, 0, 0, 5]);
}

#[test]
fn encode_frame_prefixes_length() {
    let frame = encode_frame(&[9, 8, 7]).unwrap();
    assert_eq!(frame, vec![0, 0, 0, 3, 9, 8, 7]);
    assert_eq!(encode_frame(&[]).unwrap(), vec![0, 0, 0, 0]);
}

#[test]
fn parse_frame_reads_back_and_ignores_rest() {
    let mut buf = encode_frame(b"hello").unwrap();
    buf.extend_from_slice(&[1, 2, 3]);
    let (body, used) = parse_frame(&buf).unwrap();
    assert_eq!(body, b"hello".to_vec());
    assert_eq!(used, 9);
}

#[test]
fn parse_frame_empty_is_closed() {
    assert_eq!(parse_frame(&[]), Err(FrameError::ConnectionClosed));
}

#[test]
fn parse_frame_short_header_is_truncated() {
    assert_eq!(parse_frame(&[0, 0]), Err(FrameError::Truncated));
}

#[test]
fn truncated_frame_is_a_read_failure() {
    // declares 10 bytes, holds 3
    assert_eq!(parse_frame(&[0, 0, 0, 10, 1, 2, 3]), Err(FrameError::Truncated));
    let frame = encode_frame(&[1, 2, 3, 4]).unwrap();
    assert_eq!(parse_frame(&frame[..frame.len() - 1]), Err(FrameError::Truncated));
}

#[test]
fn oversized_prefix_is_refused() {
    assert_eq!(parse_frame(&[0xff, 0xff, 0xff, 0xff, 0]), Err(FrameError::Oversized));
    assert_eq!(frame_length(&[0x10, 0, 0, 1]), Err(FrameError::Oversized));
    assert_eq!(frame_length(&[0x10, 0, 0, 0]), Ok(MAX_FRAME_LEN as usize));
    assert_eq!(frame_length(&[0, 0, 1, 2]), Ok(258));
}
