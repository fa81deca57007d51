use tarnished_sockets::connection::{
    close_code_from_payload, dispatch, error_close_code, initiate_close, next_state, ConnState,
    FrameAction,
};
use tarnished_sockets::websocket::{
    read_dataframe, CloseCode, DataFrame, OpCode, WebSocketError,
};

fn inbound(opcode: OpCode, payload: Vec<u8>) -> DataFrame {
    let len = payload.len() as u64;
    DataFrame::new(
        true,
        false,
        false,
        false,
        opcode,
        true,
        len,
        Some([0, 0, 0, 0]),
        payload,
    )
}

#[test]
fn text_and_binary_are_delivered() {
    assert!(matches!(
        dispatch(&inbound(OpCode::Text, b"hello".to_vec())),
        FrameAction::Deliver
    ));
    assert!(matches!(
        dispatch(&inbound(OpCode::Binary, vec![1, 2])),
        FrameAction::Deliver
    ));
}

#[test]
fn ping_provokes_pong() {
    assert!(matches!(dispatch(&inbound(OpCode::Ping, Vec::new())), FrameAction::ReplyPong));
    assert!(matches!(dispatch(&inbound(OpCode::Pong, Vec::new())), FrameAction::NotePong));
    assert!(matches!(
        dispatch(&inbound(OpCode::Continuation, Vec::new())),
        FrameAction::Unsupported
    ));
}

#[test]
fn close_frame_with_going_away_code() {
    // A masked close frame carrying 1001: the callback sees GoingAway and
    // the reply carries 1001 back.
    let bytes = vec![0x88, 0x82, 0, 0, 0, 0, 0x03, 0xE9];
    let (frame, _) = read_dataframe(&bytes).unwrap();
    assert!(matches!(frame.opcode, OpCode::Close));
    let action = dispatch(&frame);
    match action {
        FrameAction::CloseHandshake(code) => {
            assert!(matches!(code, CloseCode::GoingAway));
            assert_eq!(code.to_u16(), 1001);
        },
        other => panic!("expected a close handshake, got {:?}", other),
    }
    assert!(matches!(next_state(ConnState::Open, frame.opcode), ConnState::Closing));
}

#[test]
fn short_close_payload_means_normal() {
    assert!(matches!(close_code_from_payload(&Vec::new()), CloseCode::Normal));
    assert!(matches!(close_code_from_payload(&vec![0x03]), CloseCode::Normal));
}

#[test]
fn invalid_close_code_downgrades_to_policy_violated() {
    // 1005 may not be sent on the wire.
    assert!(matches!(
        close_code_from_payload(&vec![0x03, 0xED]),
        CloseCode::PolicyViolated
    ));
}

#[test]
fn errors_map_to_close_codes() {
    assert!(matches!(
        error_close_code(WebSocketError::BadOpCode(3)),
        CloseCode::ProtocolError
    ));
    assert!(matches!(
        error_close_code(WebSocketError::OpCodeNotImplemented(0xB)),
        CloseCode::PolicyViolated
    ));
    assert!(matches!(error_close_code(WebSocketError::Io), CloseCode::ServerError));
    assert!(matches!(
        error_close_code(WebSocketError::UnencodedMessage),
        CloseCode::ProtocolError
    ));
    assert!(matches!(
        error_close_code(WebSocketError::BadPayloadLength(1 << 63)),
        CloseCode::MessageTooBig
    ));
    assert!(matches!(
        error_close_code(WebSocketError::UnusedCloseCode(999)),
        CloseCode::ProtocolError
    ));
    assert!(matches!(
        error_close_code(WebSocketError::Close(CloseCode::Normal)),
        CloseCode::Normal
    ));
}

#[test]
fn connection_states_advance() {
    assert!(matches!(next_state(ConnState::Open, OpCode::Text), ConnState::Open));
    assert!(matches!(next_state(ConnState::Open, OpCode::Close), ConnState::Closing));
    assert!(matches!(next_state(ConnState::Closing, OpCode::Pong), ConnState::Closing));
    assert!(matches!(next_state(ConnState::Closing, OpCode::Close), ConnState::Closed));
    assert!(matches!(next_state(ConnState::Closed, OpCode::Close), ConnState::Closed));
    assert!(matches!(initiate_close(ConnState::Open), ConnState::Closing));
    assert!(matches!(initiate_close(ConnState::Closing), ConnState::Closing));
    assert!(matches!(initiate_close(ConnState::Closed), ConnState::Closed));
}
