//! Core of a WebSocket server: base64 and SHA-1 for the opening handshake,
//! an HTTP/1.1 upgrade-request parser and validator, the RFC 6455 frame
//! codec, and the connection state machine that drives a session.
use vstd::prelude::*;

pub mod base64;
pub mod connection;
pub mod endian;
pub mod http;
pub mod sha1;
pub mod websocket;

verus! {

/// Relies on `String::push`: appends the given character to the end of the string.
pub assume_specification[ String::push ](s: &mut String, ch: char)
    ensures
        final(s)@ == old(s)@.push(ch),
;

} // verus!
