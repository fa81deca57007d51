use tarnished_sockets::websocket::{
    close_payload, decode_dataframe, decode_payload_length, encode_message, read_dataframe, unmask,
    CloseCode, DataFrame, OpCode, PayloadLength, WebSocketError,
};

#[test]
fn server_text_frame_bytes() {
    // A text frame with payload "hi" written by the server: 4 bytes, no mask.
    let frame = DataFrame::new(
        true,
        false,
        false,
        false,
        OpCode::Text,
        false,
        2,
        None,
        b"hi".to_vec(),
    );
    let bytes = frame.serialize().unwrap();
    assert_eq!(bytes, vec![0x81, 0x02, b'h', b'i']);
}

#[test]
fn get_message_returns_payload() {
    let frame = DataFrame::new(
        true,
        false,
        false,
        false,
        OpCode::Binary,
        false,
        3,
        None,
        vec![1, 2, 3],
    );
    assert_eq!(frame.get_message(), &vec![1, 2, 3]);
}

#[test]
fn decode_undoes_encode() {
    let payload: Vec<u8> = (0..200u8).collect();
    let bytes = encode_message(payload.clone(), OpCode::Binary).unwrap();
    let (frame, used) = decode_dataframe(&bytes).unwrap();
    assert_eq!(used, bytes.len());
    assert!(frame.fin);
    assert!(!frame.mask);
    assert!(matches!(frame.opcode, OpCode::Binary));
    assert_eq!(frame.payload_length, 200);
    assert_eq!(frame.payload, payload);
}

#[test]
fn sixteen_bit_length_is_big_endian() {
    let payload = vec![7u8; 300];
    let bytes = encode_message(payload.clone(), OpCode::Binary).unwrap();
    assert_eq!(bytes[1], 126);
    assert_eq!(bytes[2], 0x01);
    assert_eq!(bytes[3], 0x2C); // 300 == 0x012C
    let (frame, _) = decode_dataframe(&bytes).unwrap();
    assert_eq!(frame.payload_length, 300);
    assert_eq!(frame.payload, payload);
}

#[test]
fn sixty_three_bit_length_is_big_endian() {
    let payload = vec![9u8; 65536];
    let bytes = encode_message(payload.clone(), OpCode::Binary).unwrap();
    assert_eq!(bytes[1], 127);
    assert_eq!(
        &bytes[2..10],
        &[0x00, 0x00, 0x00, 0x00, 0x00, 0x01, 0x00, 0x00]
    );
    let (frame, _) = decode_dataframe(&bytes).unwrap();
    assert_eq!(frame.payload_length, 65536);
    assert_eq!(frame.payload.len(), 65536);
}

#[test]
fn minimal_length_encoding_boundaries() {
    assert!(matches!(PayloadLength::try_from(0), Ok(PayloadLength::Bit7(0))));
    assert!(matches!(PayloadLength::try_from(125), Ok(PayloadLength::Bit7(125))));
    assert!(matches!(PayloadLength::try_from(126), Ok(PayloadLength::Bit16(126))));
    assert!(matches!(PayloadLength::try_from(65535), Ok(PayloadLength::Bit16(65535))));
    assert!(matches!(PayloadLength::try_from(65536), Ok(PayloadLength::Bit63(65536))));
    assert!(matches!(
        PayloadLength::try_from(1u64 << 63),
        Err(WebSocketError::BadPayloadLength(_))
    ));
}

#[test]
fn masked_frame_is_unmasked_on_read() {
    // "hi" masked with the key [0x10, 0x20, 0x30, 0x40].
    let bytes = vec![
        0x81,
        0x82,
        0x10,
        0x20,
        0x30,
        0x40,
        b'h' ^ 0x10,
        b'i' ^ 0x20,
    ];
    let (frame, used) = read_dataframe(&bytes).unwrap();
    assert_eq!(used, 8);
    assert!(frame.mask);
    assert_eq!(frame.payload_length, 2);
    assert_eq!(frame.payload, b"hi".to_vec());
}

#[test]
fn structural_decode_reads_masked_frames_too() {
    let bytes = vec![
        0x82,
        0x83,
        0x01,
        0x02,
        0x03,
        0x04,
        0x10 ^ 0x01,
        0x20 ^ 0x02,
        0x30 ^ 0x03,
    ];
    let (frame, used) = decode_dataframe(&bytes).unwrap();
    assert_eq!(used, 9);
    assert!(frame.mask);
    assert!(matches!(frame.opcode, OpCode::Binary));
    assert_eq!(frame.payload, vec![0x10, 0x20, 0x30]);
}

#[test]
fn unmasked_inbound_frame_is_refused() {
    let bytes = vec![0x81, 0x02, b'h', b'i'];
    assert!(matches!(
        read_dataframe(&bytes),
        Err(WebSocketError::UnencodedMessage)
    ));
}

#[test]
fn mask_bit_is_checked_before_the_opcode() {
    // Unmasked and with a reserved opcode: the missing mask is reported.
    let bytes = vec![0x83, 0x02, b'h', b'i'];
    assert!(matches!(
        read_dataframe(&bytes),
        Err(WebSocketError::UnencodedMessage)
    ));
    // Masked with a reserved opcode: the opcode is reported.
    let bytes = vec![0x83, 0x82, 0, 0, 0, 0, b'h', b'i'];
    assert!(matches!(
        read_dataframe(&bytes),
        Err(WebSocketError::BadOpCode(0x3))
    ));
}

#[test]
fn bad_extended_length_is_refused() {
    // Sentinel 127 with the most significant bit of the length set.
    let mut bytes = vec![0x81, 0xFF];
    bytes.extend_from_slice(&[0x80, 0, 0, 0, 0, 0, 0, 1]);
    bytes.extend_from_slice(&[0, 0, 0, 0]); // mask key
    match read_dataframe(&bytes) {
        Err(WebSocketError::BadPayloadLength(v)) => assert_eq!(v, 0x8000000000000001),
        other => panic!("expected BadPayloadLength, got {:?}", other),
    }
    let ext = vec![0x80u8, 0, 0, 0, 0, 0, 0, 1];
    assert!(matches!(
        decode_payload_length(127, &ext),
        Err(WebSocketError::BadPayloadLength(_))
    ));
}

#[test]
fn reserved_opcodes_are_refused() {
    assert!(matches!(OpCode::try_from(0x0), Ok(OpCode::Continuation)));
    assert!(matches!(OpCode::try_from(0x1), Ok(OpCode::Text)));
    assert!(matches!(OpCode::try_from(0x2), Ok(OpCode::Binary)));
    assert!(matches!(OpCode::try_from(0x8), Ok(OpCode::Close)));
    assert!(matches!(OpCode::try_from(0x9), Ok(OpCode::Ping)));
    assert!(matches!(OpCode::try_from(0xA), Ok(OpCode::Pong)));
    for value in 0x3..=0x7u8 {
        assert!(matches!(OpCode::try_from(value), Err(WebSocketError::BadOpCode(_))));
    }
    for value in 0xB..=0xFu8 {
        assert!(matches!(OpCode::try_from(value), Err(WebSocketError::BadOpCode(_))));
    }
    assert!(matches!(OpCode::try_from(0x10), Err(WebSocketError::BadOpCode(0x10))));
}

#[test]
fn close_code_classification() {
    assert!(matches!(CloseCode::try_from(1000), Ok(CloseCode::Normal)));
    assert!(matches!(CloseCode::try_from(1001), Ok(CloseCode::GoingAway)));
    assert!(matches!(CloseCode::try_from(1002), Ok(CloseCode::ProtocolError)));
    assert!(matches!(CloseCode::try_from(1003), Ok(CloseCode::Unsupported)));
    assert!(matches!(CloseCode::try_from(1006), Ok(CloseCode::ConnectionClosedAbnormally)));
    assert!(matches!(CloseCode::try_from(1007), Ok(CloseCode::InconsistentData)));
    assert!(matches!(CloseCode::try_from(1008), Ok(CloseCode::PolicyViolated)));
    assert!(matches!(CloseCode::try_from(1009), Ok(CloseCode::MessageTooBig)));
    assert!(matches!(CloseCode::try_from(1010), Ok(CloseCode::MissingExtension)));
    assert!(matches!(CloseCode::try_from(1011), Ok(CloseCode::ServerError)));
    assert!(matches!(CloseCode::try_from(1015), Ok(CloseCode::TLSFailure)));
    assert!(matches!(CloseCode::try_from(1500), Ok(CloseCode::ProtocolStatusCode(1500))));
    assert!(matches!(
        CloseCode::try_from(3500),
        Ok(CloseCode::RegisteredLibraryStatusCode(3500))
    ));
    assert!(matches!(CloseCode::try_from(4500), Ok(CloseCode::ApplicationStatusCode(4500))));
    assert!(matches!(CloseCode::try_from(6000), Ok(CloseCode::Other(6000))));
    for value in [0u16, 999, 1004, 1005, 1014] {
        assert!(matches!(
            CloseCode::try_from(value),
            Err(WebSocketError::UnusedCloseCode(_))
        ));
    }
    assert_eq!(CloseCode::GoingAway.to_u16(), 1001);
    assert_eq!(CloseCode::Other(6000).to_u16(), 6000);
}

#[test]
fn mask_applied_twice_restores_payload() {
    let payload: Vec<u8> = (0..100u8).collect();
    let key = [0xDE, 0xAD, 0xBE, 0xEF];
    let masked = unmask(&payload, &key);
    let restored = unmask(&masked, &key);
    assert_eq!(restored, payload);
}

#[test]
fn close_payload_carries_code_and_reason() {
    let payload = close_payload(CloseCode::GoingAway, "bye");
    assert_eq!(payload, vec![0x03, 0xE9, b'b', b'y', b'e']);
}
