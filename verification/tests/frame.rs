use bluewren::frame::{
    decode_frame, encode_frame, encode_frame_with_padding, FrameError, FrameType, FRAME_SIZE,
    MAX_PAYLOAD, PROTOCOL_VERSION,
};

fn as_frame(bytes: &[u8]) -> [u8; FRAME_SIZE] {
    bytes.try_into().expect("a frame has FRAME_SIZE bytes")
}

#[test]
fn roundtrip_message_frame() {
    let bytes = encode_frame(FrameType::Message, b"hello").unwrap();
    let frame = decode_frame(&as_frame(&bytes)).unwrap();
    assert_eq!(frame.frame_type, FrameType::Message);
    assert_eq!(frame.payload, b"hello");
}

#[test]
fn roundtrip_sas_handshake_frame() {
    let nonce = [42u8; 16];
    let bytes = encode_frame(FrameType::SasHandshake, &nonce).unwrap();
    let frame = decode_frame(&as_frame(&bytes)).unwrap();
    assert_eq!(frame.frame_type, FrameType::SasHandshake);
    assert_eq!(frame.payload, nonce);
}

#[test]
fn roundtrip_max_size_message() {
    let payload = vec![0xAB; MAX_PAYLOAD];
    let bytes = encode_frame(FrameType::Message, &payload).unwrap();
    let frame = decode_frame(&as_frame(&bytes)).unwrap();
    assert_eq!(frame.payload, payload);
}

#[test]
fn rejects_oversized_payload() {
    let payload = vec![0xAB; MAX_PAYLOAD + 1];
    assert!(encode_frame(FrameType::Message, &payload).is_err());
}

#[test]
fn rejects_unknown_frame_type() {
    let mut frame = [0u8; FRAME_SIZE];
    frame[0] = PROTOCOL_VERSION;
    frame[1] = 0xFF;
    let result = decode_frame(&frame);
    assert!(result.is_err());
}

#[test]
fn rejects_wrong_version() {
    let mut frame = [0u8; FRAME_SIZE];
    frame[0] = 0xFF;
    frame[1] = FrameType::Message.to_byte();
    let result = decode_frame(&frame);
    assert!(result.is_err());
}

#[test]
fn encoded_frames_have_fixed_length_and_header() {
    let bytes = encode_frame(FrameType::Control, b"close").unwrap();
    assert_eq!(bytes.len(), FRAME_SIZE);
    assert_eq!(&bytes[..9], &[0x01, 0x03, 0x00, 0x05, b'c', b'l', b'o', b's', b'e']);
    let empty = encode_frame(FrameType::Dummy, b"").unwrap();
    assert_eq!(empty.len(), FRAME_SIZE);
    assert_eq!(&empty[..4], &[0x01, 0x02, 0x00, 0x00]);
}

#[test]
fn explicit_padding_is_kept_and_ignored_on_read() {
    let padding = vec![0x5A; MAX_PAYLOAD - 3];
    let bytes = encode_frame_with_padding(FrameType::Message, b"abc", &padding).unwrap();
    assert_eq!(bytes.len(), FRAME_SIZE);
    assert_eq!(&bytes[..7], &[0x01, 0x01, 0x00, 0x03, b'a', b'b', b'c']);
    assert!(bytes[7..].iter().all(|b| *b == 0x5A));
    let frame = decode_frame(&as_frame(&bytes)).unwrap();
    assert_eq!(frame.frame_type, FrameType::Message);
    assert_eq!(frame.payload, b"abc");
}

#[test]
fn oversized_payload_error_carries_length() {
    let payload = vec![1u8; 300];
    assert_eq!(
        encode_frame(FrameType::Message, &payload).err(),
        Some(FrameError::PayloadTooLarge { len: 300 })
    );
    assert_eq!(
        encode_frame_with_padding(FrameType::Message, &payload, &[]).err(),
        Some(FrameError::PayloadTooLarge { len: 300 })
    );
}

#[test]
fn decode_errors_name_the_offending_field() {
    let mut frame = [0u8; FRAME_SIZE];
    frame[0] = 0x07;
    assert_eq!(decode_frame(&frame).err(), Some(FrameError::VersionMismatch { found: 0x07 }));
    frame[0] = PROTOCOL_VERSION;
    frame[1] = 0x05;
    assert_eq!(decode_frame(&frame).err(), Some(FrameError::UnknownFrameType(0x05)));
    frame[1] = 0x01;
    frame[2] = 0x00;
    frame[3] = 0xFD;
    assert_eq!(decode_frame(&frame).err(), Some(FrameError::LengthFieldTooLarge(253)));
    frame[2] = 0x01;
    frame[3] = 0x00;
    assert_eq!(decode_frame(&frame).err(), Some(FrameError::LengthFieldTooLarge(256)));
    frame[2] = 0x00;
    frame[3] = 0xFC;
    let ok = decode_frame(&frame).unwrap();
    assert_eq!(ok.payload.len(), MAX_PAYLOAD);
}

#[test]
fn type_bytes_roundtrip() {
    for t in [FrameType::Message, FrameType::Dummy, FrameType::Control, FrameType::SasHandshake] {
        assert_eq!(FrameType::from_byte(t.to_byte()), Ok(t));
    }
    assert_eq!(FrameType::Message.to_byte(), 0x01);
    assert_eq!(FrameType::SasHandshake.to_byte(), 0x04);
    assert_eq!(FrameType::from_byte(0x00), Err(FrameError::UnknownFrameType(0x00)));
}

#[test]
fn padding_is_random() {
    let a = encode_frame(FrameType::Message, b"x").unwrap();
    let b = encode_frame(FrameType::Message, b"x").unwrap();
    assert_eq!(&a[..5], &b[..5]);
    assert_ne!(&a[5..], &b[5..]);
}
