use tui_rogue::frame::{encode_frame, frame_length, FrameError, MAX_MSG_SIZE};
use tui_rogue::text::i32_string;

#[test]
fn frames_carry_a_little_endian_length_then_the_payload() {
    let payload = b"hello".to_vec();
    let frame = encode_frame(&payload).unwrap();
    assert_eq!(frame, vec![5, 0, 0, 0, b'h', b'e', b'l', b'l', b'o']);
    let header = [frame[0], frame[1], frame[2], frame[3]];
    assert_eq!(frame_length(header), Ok(5));
    let big = vec![7u8; 70_000];
    let frame = encode_frame(&big).unwrap();
    assert_eq!(&frame[..4], &[0x70, 0x11, 0x01, 0x00]);
    assert_eq!(frame_length([frame[0], frame[1], frame[2], frame[3]]), Ok(70_000));
}

#[test]
fn an_oversized_payload_is_refused() {
    let big = vec![0u8; MAX_MSG_SIZE + 1];
    assert_eq!(encode_frame(&big), Err(FrameError::TooLarge(MAX_MSG_SIZE + 1)));
    let edge = vec![0u8; MAX_MSG_SIZE];
    assert!(encode_frame(&edge).is_ok());
}

#[test]
fn an_oversized_header_is_refused_before_reading_the_payload() {
    assert_eq!(frame_length(u32::MAX.to_le_bytes()), Err(FrameError::TooLarge(u32::MAX as usize)));
    assert_eq!(frame_length((MAX_MSG_SIZE as u32).to_le_bytes()), Ok(MAX_MSG_SIZE));
    assert_eq!(
        FrameError::TooLarge(4294967295).text(),
        "message length 4294967295 exceeds limit 1048576"
    );
}

#[test]
fn integers_render_in_decimal() {
    assert_eq!(i32_string(0), "0");
    assert_eq!(i32_string(7), "7");
    assert_eq!(i32_string(-45), "-45");
    assert_eq!(i32_string(i32::MAX), "2147483647");
    assert_eq!(i32_string(i32::MIN), "-2147483648");
}
