//! The per-connection state machine: what one inbound frame does to the
//! connection, which reply it provokes, and which close code an error maps
//! to. The read loop around a live stream performs the actions.
use vstd::prelude::*;

use crate::endian::{spec_u16_be, u16_from_be_bytes};
use crate::websocket::{
    spec_close_code_from, CloseCode, DataFrame, OpCode, WebSocketError,
};

verus! {

/// The lifecycle of a connection.
#[derive(Clone, Copy, Debug, PartialEq, Eq, Structural)]
pub enum ConnState {
    /// The handshake reply has been written; frames flow.
    Open,
    /// A close frame has been seen or sent; draining until the peer's close.
    Closing,
    /// The stream is shut down in both directions.
    Closed,
}

/// What the read loop must do with one inbound frame.
#[derive(Clone, Copy, Debug, PartialEq, Eq, Structural)]
pub enum FrameAction {
    /// Hand the frame to the receive callback.
    Deliver,
    /// Invoke the ping callback and send a pong frame back.
    ReplyPong,
    /// Invoke the pong callback and reset the missed-pong count.
    NotePong,
    /// Invoke the close callback with this code, send a matching close
    /// frame back, and shut the stream down.
    CloseHandshake(CloseCode),
    /// Continuation frames are reserved for fragment reassembly, which
    /// this library does not perform.
    Unsupported,
}

/// The close code carried by a close frame's payload: the first two bytes
/// big-endian when there are at least two, `Normal` otherwise; a code no
/// endpoint may send is downgraded to `PolicyViolated`.
pub open spec fn spec_close_code_of_payload(payload: Seq<u8>) -> CloseCode {
    if payload.len() >= 2 {
        match spec_close_code_from(spec_u16_be(payload[0], payload[1])) {
            Ok(code) => code,
            Err(_) => CloseCode::PolicyViolated,
        }
    } else {
        CloseCode::Normal
    }
}

/// Reads the close code out of a close frame's payload.
pub fn close_code_from_payload(payload: &Vec<u8>) -> (code: CloseCode)
    ensures
        code == spec_close_code_of_payload(payload@),
{
    if payload.len() >= 2 {
        let value = u16_from_be_bytes(payload[0], payload[1]);
        match CloseCode::try_from(value) {
            Ok(code) => code,
            Err(_) => CloseCode::PolicyViolated,
        }
    } else {
        CloseCode::Normal
    }
}

/// The action one inbound frame asks of the read loop, by its opcode.
pub open spec fn spec_dispatch(frame: crate::websocket::FrameModel) -> FrameAction {
    match frame.opcode {
        OpCode::Continuation => FrameAction::Unsupported,
        OpCode::Text => FrameAction::Deliver,
        OpCode::Binary => FrameAction::Deliver,
        OpCode::Close => FrameAction::CloseHandshake(spec_close_code_of_payload(frame.payload)),
        OpCode::Ping => FrameAction::ReplyPong,
        OpCode::Pong => FrameAction::NotePong,
    }
}

/// Decides what the read loop does with one inbound frame: text and binary
/// go to the receive callback, a ping provokes a pong, a pong is noted,
/// and a close frame starts the closing handshake with the code its
/// payload carries.
pub fn dispatch(frame: &DataFrame) -> (action: FrameAction)
    requires
        frame@.payload_length == frame@.payload.len(),
    ensures
        action == spec_dispatch(frame@),
{
    match frame.opcode {
        OpCode::Continuation => FrameAction::Unsupported,
        OpCode::Text => FrameAction::Deliver,
        OpCode::Binary => FrameAction::Deliver,
        OpCode::Close => {
            let code = if frame.payload_length >= 2 {
                let value = u16_from_be_bytes(frame.payload[0], frame.payload[1]);
                match CloseCode::try_from(value) {
                    Ok(code) => code,
                    Err(_) => CloseCode::PolicyViolated,
                }
            } else {
                CloseCode::Normal
            };
            FrameAction::CloseHandshake(code)
        },
        OpCode::Ping => FrameAction::ReplyPong,
        OpCode::Pong => FrameAction::NotePong,
    }
}

/// The close code sent when an error surfaces from the codec or the read
/// loop.
pub open spec fn spec_error_close_code(error: WebSocketError) -> CloseCode {
    match error {
        WebSocketError::BadOpCode(_) => CloseCode::ProtocolError,
        WebSocketError::OpCodeNotImplemented(_) => CloseCode::PolicyViolated,
        WebSocketError::Io => CloseCode::ServerError,
        WebSocketError::UnencodedMessage => CloseCode::ProtocolError,
        WebSocketError::BadPayloadLength(_) => CloseCode::MessageTooBig,
        WebSocketError::UnusedCloseCode(_) => CloseCode::ProtocolError,
        WebSocketError::Close(code) => code,
    }
}

/// Maps an error to the close code the server answers with before it
/// shuts the connection down.
pub fn error_close_code(error: WebSocketError) -> (code: CloseCode)
    ensures
        code == spec_error_close_code(error),
{
    match error {
        WebSocketError::BadOpCode(_) => CloseCode::ProtocolError,
        WebSocketError::OpCodeNotImplemented(_) => CloseCode::PolicyViolated,
        WebSocketError::Io => CloseCode::ServerError,
        WebSocketError::UnencodedMessage => CloseCode::ProtocolError,
        WebSocketError::BadPayloadLength(_) => CloseCode::MessageTooBig,
        WebSocketError::UnusedCloseCode(_) => CloseCode::ProtocolError,
        WebSocketError::Close(code) => code,
    }
}

/// The state after one inbound frame: a close frame moves an open
/// connection to `Closing` and a draining connection to `Closed`; every
/// other frame leaves the state alone, and `Closed` is terminal.
pub open spec fn spec_next_state(state: ConnState, opcode: OpCode) -> ConnState {
    match state {
        ConnState::Open => if opcode == OpCode::Close {
            ConnState::Closing
        } else {
            ConnState::Open
        },
        ConnState::Closing => if opcode == OpCode::Close {
            ConnState::Closed
        } else {
            ConnState::Closing
        },
        ConnState::Closed => ConnState::Closed,
    }
}

/// Advances the connection state for one inbound frame.
pub fn next_state(state: ConnState, opcode: OpCode) -> (next: ConnState)
    ensures
        next == spec_next_state(state, opcode),
{
    match state {
        ConnState::Open => if let OpCode::Close = opcode {
            ConnState::Closing
        } else {
            ConnState::Open
        },
        ConnState::Closing => if let OpCode::Close = opcode {
            ConnState::Closed
        } else {
            ConnState::Closing
        },
        ConnState::Closed => ConnState::Closed,
    }
}

/// The state after the server itself decides to close: an open connection
/// starts draining; a closing or closed one is left as it is.
pub open spec fn spec_initiate_close(state: ConnState) -> ConnState {
    match state {
        ConnState::Open => ConnState::Closing,
        ConnState::Closing => ConnState::Closing,
        ConnState::Closed => ConnState::Closed,
    }
}

/// Starts the closing handshake from the server's side.
pub fn initiate_close(state: ConnState) -> (next: ConnState)
    ensures
        next == spec_initiate_close(state),
{
    match state {
        ConnState::Open => ConnState::Closing,
        ConnState::Closing => ConnState::Closing,
        ConnState::Closed => ConnState::Closed,
    }
}

} // verus!
