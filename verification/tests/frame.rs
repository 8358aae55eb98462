use ciri::frame::{build_control_hello, decode_frame_header, encode_frame, frame_len_ok, MAX_FRAME_SIZE, TAG_CLIENT_MSG};

#[test]
fn frames_carry_tag_and_little_endian_length() {
    let frame = encode_frame(TAG_CLIENT_MSG, &[9, 8, 7]);
    assert_eq!(frame, vec![0x01, 3, 0, 0, 0, 9, 8, 7]);
    let header: [u8; 5] = [frame[0], frame[1], frame[2], frame[3], frame[4]];
    assert_eq!(decode_frame_header(&header), (0x01, 3));
    assert_eq!(decode_frame_header(&[0x10, 0x00, 0x01, 0x00, 0x01]), (0x10, 0x0100_0100));
}

#[test]
fn frame_length_limit() {
    assert!(frame_len_ok(0));
    assert!(frame_len_ok(MAX_FRAME_SIZE));
    assert!(!frame_len_ok(MAX_FRAME_SIZE + 1));
}

#[test]
fn control_hello_layout() {
    let hello = build_control_hello(1, 2, 3, 4);
    assert_eq!(&hello[0..4], b"CIRI");
    assert_eq!(&hello[4..8], &[3, 0, 2, 1]);
    assert_eq!(hello[8], 4);
    assert_eq!(&hello[9..11], &[11, 0]);
    assert_eq!(&hello[11..22], b"__control__");
    assert_eq!(&hello[22..26], &1024u32.to_le_bytes());
    assert_eq!(&hello[26..30], &768u32.to_le_bytes());
    assert_eq!(&hello[30..34], &8.0f32.to_bits().to_le_bytes());
    assert_eq!(&hello[34..38], &16.0f32.to_bits().to_le_bytes());
    assert_eq!(hello.len(), 38);
}
