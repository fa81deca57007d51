//! The RFC 6455 frame codec: reading and writing data frames, extended
//! lengths, and the client-to-server payload mask.
use vstd::prelude::*;

use crate::endian::{
    spec_u16_be, spec_u16_bytes, spec_u64_be, spec_u64_bytes, u16_from_be_bytes, u64_from_be_bytes,
};
use vstd::string::StringSliceAdditionalSpecFns;

verus! {

/// The four-bit tag distinguishing control and data frame kinds.
#[derive(Clone, Copy, Debug, PartialEq, Eq, Structural)]
pub enum OpCode {
    Continuation,
    /// UTF-8 text.
    Text,
    Binary,
    Close,
    Ping,
    Pong,
}

/// A 16-bit close status classified into its named variants and ranges.
#[derive(Clone, Copy, Debug, PartialEq, Eq, Structural)]
pub enum CloseCode {
    /// 1000: the purpose of the connection has been fulfilled.
    Normal,
    /// 1001: the endpoint is going away.
    GoingAway,
    /// 1002: terminating because of a protocol error.
    ProtocolError,
    /// 1003: a kind of data the endpoint cannot accept.
    Unsupported,
    /// 1006: the connection was closed abnormally.
    ConnectionClosedAbnormally,
    /// 1007: message data inconsistent with the message type.
    InconsistentData,
    /// 1008: a received message violates the endpoint's policy.
    PolicyViolated,
    /// 1009: a received message is too big to process.
    MessageTooBig,
    /// 1010: the client did not receive an expected extension.
    MissingExtension,
    /// 1011: the server met an unexpected condition.
    ServerError,
    /// 1015: the TLS handshake failed.
    TLSFailure,
    /// The remainder of 1000..=2999, reserved for the protocol.
    ProtocolStatusCode(u16),
    /// 3000..=3999, registered for libraries and frameworks.
    RegisteredLibraryStatusCode(u16),
    /// 4000..=4999, for private application use.
    ApplicationStatusCode(u16),
    /// Any value of 5000 and above.
    Other(u16),
}

/// What can go wrong while reading or writing frames.
#[derive(Clone, Copy, Debug, PartialEq, Eq, Structural)]
pub enum WebSocketError {
    /// A reserved opcode value was read.
    BadOpCode(u8),
    /// An opcode this library does not handle.
    OpCodeNotImplemented(u8),
    /// The underlying stream failed; the I/O error itself stays with the caller.
    Io,
    /// A client-to-server frame arrived without the mask bit.
    UnencodedMessage,
    /// A payload length outside the 63-bit range.
    BadPayloadLength(u64),
    /// A close code that no endpoint may send.
    UnusedCloseCode(u16),
    /// A callback asked for the connection to close with this code.
    Close(CloseCode),
}

/// The wire value of an opcode.
pub open spec fn opcode_value(op: OpCode) -> u8 {
    match op {
        OpCode::Continuation => 0x0,
        OpCode::Text => 0x1,
        OpCode::Binary => 0x2,
        OpCode::Close => 0x8,
        OpCode::Ping => 0x9,
        OpCode::Pong => 0xA,
    }
}

/// The opcode a four-bit wire value stands for: the reserved values
/// 0x3..=0x7 and 0xB..=0xF, and anything above 0xF, are protocol errors.
pub open spec fn spec_opcode_from(value: u8) -> Result<OpCode, WebSocketError> {
    if value == 0x0 {
        Ok(OpCode::Continuation)
    } else if value == 0x1 {
        Ok(OpCode::Text)
    } else if value == 0x2 {
        Ok(OpCode::Binary)
    } else if value == 0x8 {
        Ok(OpCode::Close)
    } else if value == 0x9 {
        Ok(OpCode::Ping)
    } else if value == 0xA {
        Ok(OpCode::Pong)
    } else {
        Err(WebSocketError::BadOpCode(value))
    }
}

impl OpCode {
    /// The four-bit wire value of this opcode.
    pub fn value(self) -> (v: u8)
        ensures
            v == opcode_value(self),
    {
        match self {
            OpCode::Continuation => 0x0,
            OpCode::Text => 0x1,
            OpCode::Binary => 0x2,
            OpCode::Close => 0x8,
            OpCode::Ping => 0x9,
            OpCode::Pong => 0xA,
        }
    }

    /// Decodes a four-bit opcode value read from the wire.
    pub fn try_from(value: u8) -> (r: Result<OpCode, WebSocketError>)
        ensures
            r == spec_opcode_from(value),
    {
        if value == 0x0 {
            Ok(OpCode::Continuation)
        } else if value == 0x1 {
            Ok(OpCode::Text)
        } else if value == 0x2 {
            Ok(OpCode::Binary)
        } else if value == 0x8 {
            Ok(OpCode::Close)
        } else if value == 0x9 {
            Ok(OpCode::Ping)
        } else if value == 0xA {
            Ok(OpCode::Pong)
        } else {
            Err(WebSocketError::BadOpCode(value))
        }
    }
}

/// The close code a 16-bit status value stands for. The unused range
/// 0..=999 and the reserved values 1004, 1005 and 1014 are rejected.
pub open spec fn spec_close_code_from(value: u16) -> Result<CloseCode, WebSocketError> {
    if value <= 999 {
        Err(WebSocketError::UnusedCloseCode(value))
    } else if value == 1000 {
        Ok(CloseCode::Normal)
    } else if value == 1001 {
        Ok(CloseCode::GoingAway)
    } else if value == 1002 {
        Ok(CloseCode::ProtocolError)
    } else if value == 1003 {
        Ok(CloseCode::Unsupported)
    } else if value == 1004 || value == 1005 {
        Err(WebSocketError::UnusedCloseCode(value))
    } else if value == 1006 {
        Ok(CloseCode::ConnectionClosedAbnormally)
    } else if value == 1007 {
        Ok(CloseCode::InconsistentData)
    } else if value == 1008 {
        Ok(CloseCode::PolicyViolated)
    } else if value == 1009 {
        Ok(CloseCode::MessageTooBig)
    } else if value == 1010 {
        Ok(CloseCode::MissingExtension)
    } else if value == 1011 {
        Ok(CloseCode::ServerError)
    } else if value == 1014 {
        Err(WebSocketError::UnusedCloseCode(value))
    } else if value == 1015 {
        Ok(CloseCode::TLSFailure)
    } else if value <= 2999 {
        Ok(CloseCode::ProtocolStatusCode(value))
    } else if value <= 3999 {
        Ok(CloseCode::RegisteredLibraryStatusCode(value))
    } else if value <= 4999 {
        Ok(CloseCode::ApplicationStatusCode(value))
    } else {
        Ok(CloseCode::Other(value))
    }
}

/// The 16-bit status value a close code stands for.
pub open spec fn spec_close_code_value(code: CloseCode) -> u16 {
    match code {
        CloseCode::Normal => 1000,
        CloseCode::GoingAway => 1001,
        CloseCode::ProtocolError => 1002,
        CloseCode::Unsupported => 1003,
        CloseCode::ConnectionClosedAbnormally => 1006,
        CloseCode::InconsistentData => 1007,
        CloseCode::PolicyViolated => 1008,
        CloseCode::MessageTooBig => 1009,
        CloseCode::MissingExtension => 1010,
        CloseCode::ServerError => 1011,
        CloseCode::TLSFailure => 1015,
        CloseCode::ProtocolStatusCode(v) => v,
        CloseCode::RegisteredLibraryStatusCode(v) => v,
        CloseCode::ApplicationStatusCode(v) => v,
        CloseCode::Other(v) => v,
    }
}

impl CloseCode {
    /// Classifies a 16-bit status value read from a close frame.
    pub fn try_from(value: u16) -> (r: Result<CloseCode, WebSocketError>)
        ensures
            r == spec_close_code_from(value),
    {
        if value <= 999 {
            Err(WebSocketError::UnusedCloseCode(value))
        } else if value == 1000 {
            Ok(CloseCode::Normal)
        } else if value == 1001 {
            Ok(CloseCode::GoingAway)
        } else if value == 1002 {
            Ok(CloseCode::ProtocolError)
        } else if value == 1003 {
            Ok(CloseCode::Unsupported)
        } else if value == 1004 || value == 1005 {
            Err(WebSocketError::UnusedCloseCode(value))
        } else if value == 1006 {
            Ok(CloseCode::ConnectionClosedAbnormally)
        } else if value == 1007 {
            Ok(CloseCode::InconsistentData)
        } else if value == 1008 {
            Ok(CloseCode::PolicyViolated)
        } else if value == 1009 {
            Ok(CloseCode::MessageTooBig)
        } else if value == 1010 {
            Ok(CloseCode::MissingExtension)
        } else if value == 1011 {
            Ok(CloseCode::ServerError)
        } else if value == 1014 {
            Err(WebSocketError::UnusedCloseCode(value))
        } else if value == 1015 {
            Ok(CloseCode::TLSFailure)
        } else if value <= 2999 {
            Ok(CloseCode::ProtocolStatusCode(value))
        } else if value <= 3999 {
            Ok(CloseCode::RegisteredLibraryStatusCode(value))
        } else if value <= 4999 {
            Ok(CloseCode::ApplicationStatusCode(value))
        } else {
            Ok(CloseCode::Other(value))
        }
    }

    /// The 16-bit status value carried by this close code.
    pub fn to_u16(self) -> (v: u16)
        ensures
            v == spec_close_code_value(self),
    {
        match self {
            CloseCode::Normal => 1000,
            CloseCode::GoingAway => 1001,
            CloseCode::ProtocolError => 1002,
            CloseCode::Unsupported => 1003,
            CloseCode::ConnectionClosedAbnormally => 1006,
            CloseCode::InconsistentData => 1007,
            CloseCode::PolicyViolated => 1008,
            CloseCode::MessageTooBig => 1009,
            CloseCode::MissingExtension => 1010,
            CloseCode::ServerError => 1011,
            CloseCode::TLSFailure => 1015,
            CloseCode::ProtocolStatusCode(v) => v,
            CloseCode::RegisteredLibraryStatusCode(v) => v,
            CloseCode::ApplicationStatusCode(v) => v,
            CloseCode::Other(v) => v,
        }
    }
}

/// The three on-wire forms of a payload length.
#[derive(Clone, Copy, Debug, PartialEq, Eq, Structural)]
pub enum PayloadLength {
    /// Up to 125, held inline in the second header byte.
    Bit7(u8),
    /// 126..=65535, two extended bytes behind the sentinel 126.
    Bit16(u16),
    /// 65536..=2^63-1, eight extended bytes behind the sentinel 127.
    Bit63(u64),
}

/// The minimal on-wire form of a payload length; lengths of 2^63 and
/// above cannot be carried.
pub open spec fn spec_payload_length(length: u64) -> Result<PayloadLength, WebSocketError> {
    if length < 126 {
        Ok(PayloadLength::Bit7(length as u8))
    } else if length < 65536 {
        Ok(PayloadLength::Bit16(length as u16))
    } else if length < 0x8000000000000000 {
        Ok(PayloadLength::Bit63(length))
    } else {
        Err(WebSocketError::BadPayloadLength(length))
    }
}

impl PayloadLength {
    /// Picks the minimal on-wire form for a payload length.
    pub fn try_from(length: u64) -> (r: Result<PayloadLength, WebSocketError>)
        ensures
            r == spec_payload_length(length),
    {
        if length < 126 {
            Ok(PayloadLength::Bit7(length as u8))
        } else if length < 65536 {
            Ok(PayloadLength::Bit16(length as u16))
        } else if length < 0x8000000000000000 {
            Ok(PayloadLength::Bit63(length))
        } else {
            Err(WebSocketError::BadPayloadLength(length))
        }
    }
}

/// Minimal length encoding: the form chosen is the smallest of the three
/// that can represent the length, and only lengths of 2^63 and above are
/// refused.
pub proof fn lemma_minimal_length_encoding(length: u64)
    ensures
        spec_payload_length(length) matches Ok(enc) ==> match enc {
            PayloadLength::Bit7(v) => v == length && length <= 125,
            PayloadLength::Bit16(v) => v == length && !(length <= 125) && length <= 65535,
            PayloadLength::Bit63(v) => v == length && !(length <= 125) && !(length <= 65535),
        },
        spec_payload_length(length) is Err <==> length >= 0x8000000000000000,
{
}

/// The ghost mirror of a data frame, with byte sequences for the payload
/// and the mask key.
#[verifier::ext_equal]
pub struct FrameModel {
    pub fin: bool,
    pub rsv1: bool,
    pub rsv2: bool,
    pub rsv3: bool,
    pub opcode: OpCode,
    pub mask: bool,
    pub payload_length: u64,
    pub mask_key: Option<Seq<u8>>,
    pub payload: Seq<u8>,
}

/// One RFC 6455 unit of transmission. The payload is stored unmasked:
/// the codec removes the mask on read and never applies one on write.
#[derive(Debug)]
pub struct DataFrame {
    pub fin: bool,
    pub rsv1: bool,
    pub rsv2: bool,
    pub rsv3: bool,
    pub opcode: OpCode,
    pub mask: bool,
    pub payload_length: u64,
    pub mask_key: Option<[u8; 4]>,
    pub payload: Vec<u8>,
}

impl View for DataFrame {
    type V = FrameModel;

    open spec fn view(&self) -> FrameModel {
        FrameModel {
            fin: self.fin,
            rsv1: self.rsv1,
            rsv2: self.rsv2,
            rsv3: self.rsv3,
            opcode: self.opcode,
            mask: self.mask,
            payload_length: self.payload_length,
            mask_key: match self.mask_key {
                Some(k) => Some(k@),
                None => None,
            },
            payload: self.payload@,
        }
    }
}

/// Whether a bit of a byte is set; position 7 is the most significant bit.
pub open spec fn spec_bit(byte: u8, position: u8) -> bool {
    ((byte >> position) & 1) != 0
}

/// Whether a bit of a byte is set; position 7 is the most significant bit.
pub fn bit(byte: u8, position: u8) -> (b: bool)
    requires
        position < 8,
    ensures
        b == spec_bit(byte, position),
{
    ((byte >> position) & 1) != 0
}

/// The first header byte: fin, the three reserved bits, and the opcode.
pub open spec fn spec_header_byte(m: FrameModel) -> u8 {
    (if m.fin {
        0x80u8
    } else {
        0u8
    }) | (if m.rsv1 {
        0x40u8
    } else {
        0u8
    }) | (if m.rsv2 {
        0x20u8
    } else {
        0u8
    }) | (if m.rsv3 {
        0x10u8
    } else {
        0u8
    }) | opcode_value(m.opcode)
}

/// The length sentinel held in the low seven bits of the second header byte.
pub open spec fn spec_length_sentinel(length: u64) -> u8 {
    if length < 126 {
        length as u8
    } else if length < 65536 {
        126
    } else {
        127
    }
}

/// The second header byte: the mask bit and the length sentinel.
pub open spec fn spec_mask_byte(m: FrameModel) -> u8 {
    (if m.mask {
        0x80u8
    } else {
        0u8
    }) | spec_length_sentinel(m.payload_length)
}

/// The extended length bytes that follow the second header byte.
pub open spec fn spec_length_ext_bytes(length: u64) -> Seq<u8> {
    if length < 126 {
        Seq::empty()
    } else if length < 65536 {
        spec_u16_bytes(length as u16)
    } else {
        spec_u64_bytes(length)
    }
}

/// The mask key bytes serialized after the length, if a key is present.
pub open spec fn spec_mask_key_bytes(m: FrameModel) -> Seq<u8> {
    match m.mask_key {
        Some(k) => k,
        None => Seq::empty(),
    }
}

/// The serialized form of a frame: two header bytes, the extended length,
/// the mask key if present, and the payload verbatim.
pub open spec fn spec_serialize(m: FrameModel) -> Seq<u8>
    recommends
        m.payload_length < 0x8000000000000000,
{
    seq![spec_header_byte(m), spec_mask_byte(m)] + spec_length_ext_bytes(m.payload_length)
        + spec_mask_key_bytes(m) + m.payload
}

impl DataFrame {
    /// Gathers the fields of a frame.
    pub fn new(
        fin: bool,
        rsv1: bool,
        rsv2: bool,
        rsv3: bool,
        opcode: OpCode,
        mask: bool,
        payload_length: u64,
        mask_key: Option<[u8; 4]>,
        payload: Vec<u8>,
    ) -> (frame: DataFrame)
        ensures
            frame.fin == fin,
            frame.rsv1 == rsv1,
            frame.rsv2 == rsv2,
            frame.rsv3 == rsv3,
            frame.opcode == opcode,
            frame.mask == mask,
            frame.payload_length == payload_length,
            frame.mask_key == mask_key,
            frame.payload == payload,
    {
        DataFrame { fin, rsv1, rsv2, rsv3, opcode, mask, payload_length, mask_key, payload }
    }

    /// The payload carried by this frame.
    pub fn get_message(&self) -> (message: &Vec<u8>)
        ensures
            message@ == self@.payload,
    {
        &self.payload
    }

    /// Serializes the frame for the wire. Fails only when the payload
    /// length cannot be carried in 63 bits.
    #[verifier::rlimit(50)]
    pub fn serialize(self) -> (r: Result<Vec<u8>, WebSocketError>)
        ensures
            match r {
                Ok(bytes) => self.payload_length < 0x8000000000000000 && bytes@ == spec_serialize(
                    self@,
                ),
                Err(e) => self.payload_length >= 0x8000000000000000 && e
                    == WebSocketError::BadPayloadLength(self.payload_length),
            },
    {
        let ghost model = self@;
        let mut header_byte: u8 = if self.fin {
            0x80
        } else {
            0
        };
        header_byte = header_byte | (if self.rsv1 {
            0x40
        } else {
            0
        });
        header_byte = header_byte | (if self.rsv2 {
            0x20
        } else {
            0
        });
        header_byte = header_byte | (if self.rsv3 {
            0x10
        } else {
            0
        });
        header_byte = header_byte | self.opcode.value();
        let payload_length = match PayloadLength::try_from(self.payload_length) {
            Ok(p) => p,
            Err(e) => {
                return Err(e);
            },
        };
        let sentinel: u8 = match payload_length {
            PayloadLength::Bit7(length) => length,
            PayloadLength::Bit16(_) => 126,
            PayloadLength::Bit63(_) => 127,
        };
        let mask_payload_byte: u8 = (if self.mask {
            0x80
        } else {
            0
        }) | sentinel;
        let mut serialized: Vec<u8> = Vec::new();
        serialized.push(header_byte);
        serialized.push(mask_payload_byte);
        match payload_length {
            PayloadLength::Bit7(_) => {},
            PayloadLength::Bit16(length) => {
                serialized.push(((length >> 8) & 0xFF) as u8);
                serialized.push((length & 0xFF) as u8);
            },
            PayloadLength::Bit63(length) => {
                serialized.push(((length >> 56) & 0xFF) as u8);
                serialized.push(((length >> 48) & 0xFF) as u8);
                serialized.push(((length >> 40) & 0xFF) as u8);
                serialized.push(((length >> 32) & 0xFF) as u8);
                serialized.push(((length >> 24) & 0xFF) as u8);
                serialized.push(((length >> 16) & 0xFF) as u8);
                serialized.push(((length >> 8) & 0xFF) as u8);
                serialized.push((length & 0xFF) as u8);
            },
        }
        if let Some(mask_key) = self.mask_key {
            serialized.push(mask_key[0]);
            serialized.push(mask_key[1]);
            serialized.push(mask_key[2]);
            serialized.push(mask_key[3]);
        }
        let mut payload = self.payload;
        serialized.append(&mut payload);
        proof {
            assert(serialized@ =~= spec_serialize(model));
        }
        Ok(serialized)
    }
}

/// A payload masked, byte by byte, with the four-byte key; masking and
/// unmasking are the same XOR.
pub open spec fn spec_unmask(payload: Seq<u8>, mask_key: Seq<u8>) -> Seq<u8>
    recommends
        mask_key.len() == 4,
{
    Seq::new(payload.len(), |i: int| payload[i] ^ mask_key[i % 4])
}

/// Removes (or applies) the mask: byte `i` of the payload is XORed with
/// byte `i` modulo 4 of the key.
pub fn unmask(payload: &Vec<u8>, mask_key: &[u8; 4]) -> (unmasked: Vec<u8>)
    ensures
        unmasked@ == spec_unmask(payload@, mask_key@),
{
    let n = payload.len();
    let mut unmasked: Vec<u8> = Vec::new();
    let mut i: usize = 0;
    while i < n
        invariant
            i <= n,
            n == payload@.len(),
            unmasked@.len() == i,
            forall|q: int| 0 <= q < i ==> unmasked@[q] == payload@[q] ^ mask_key@[q % 4],
        decreases n - i,
    {
        unmasked.push(payload[i] ^ mask_key[i % 4]);
        i = i + 1;
    }
    proof {
        assert(unmasked@ =~= spec_unmask(payload@, mask_key@));
    }
    unmasked
}

proof fn lemma_xor_involutive(a: u8, b: u8)
    by (bit_vector)
    ensures
        (a ^ b) ^ b == a,
{
}

/// Applying the mask twice gives the payload back: XOR is self-inverse.
pub proof fn lemma_unmask_involutive(payload: Seq<u8>, mask_key: Seq<u8>)
    requires
        mask_key.len() == 4,
    ensures
        spec_unmask(spec_unmask(payload, mask_key), mask_key) == payload,
{
    let once = spec_unmask(payload, mask_key);
    let twice = spec_unmask(once, mask_key);
    assert forall|i: int| 0 <= i < payload.len() implies twice[i] == payload[i] by {
        lemma_xor_involutive(payload[i], mask_key[i % 4]);
    }
    assert(twice =~= payload);
}

/// How many extended length bytes follow the second header byte.
pub open spec fn spec_extended_size(length7: u8) -> u8 {
    if length7 <= 125 {
        0
    } else if length7 == 126 {
        2
    } else {
        8
    }
}

/// How many extended length bytes follow the second header byte.
pub fn extended_length_size(length7: u8) -> (n: u8)
    ensures
        n == spec_extended_size(length7),
{
    if length7 <= 125 {
        0
    } else if length7 == 126 {
        2
    } else {
        8
    }
}

/// The payload length read from the wire: inline for a sentinel up to 125,
/// two big-endian bytes for 126, eight for 127; a 127-sentinel length with
/// its most significant bit set is rejected.
pub open spec fn spec_decoded_length(length7: u8, ext: Seq<u8>) -> Result<u64, WebSocketError>
    recommends
        length7 < 128,
        ext.len() == spec_extended_size(length7),
{
    if length7 <= 125 {
        Ok(length7 as u64)
    } else if length7 == 126 {
        Ok(spec_u16_be(ext[0], ext[1]) as u64)
    } else {
        let v = spec_u64_be(ext[0], ext[1], ext[2], ext[3], ext[4], ext[5], ext[6], ext[7]);
        if spec_bit(ext[0], 7) {
            Err(WebSocketError::BadPayloadLength(v))
        } else {
            Ok(v)
        }
    }
}

/// Reads the payload length that the sentinel and the extended bytes carry.
pub fn decode_payload_length(length7: u8, ext: &Vec<u8>) -> (r: Result<u64, WebSocketError>)
    requires
        length7 < 128,
        ext@.len() == spec_extended_size(length7),
    ensures
        r == spec_decoded_length(length7, ext@),
        r matches Ok(v) ==> v < 0x8000000000000000,
{
    if length7 <= 125 {
        Ok(length7 as u64)
    } else if length7 == 126 {
        Ok(u16_from_be_bytes(ext[0], ext[1]) as u64)
    } else {
        let v = u64_from_be_bytes(ext[0], ext[1], ext[2], ext[3], ext[4], ext[5], ext[6], ext[7]);
        if bit(ext[0], 7) {
            Err(WebSocketError::BadPayloadLength(v))
        } else {
            proof {
                lemma_high_bit_bound(ext@[0], ext@[1], ext@[2], ext@[3], ext@[4], ext@[5], ext@[6], ext@[7]);
            }
            Ok(v)
        }
    }
}

proof fn lemma_high_bit_bound(b0: u8, b1: u8, b2: u8, b3: u8, b4: u8, b5: u8, b6: u8, b7: u8)
    by (bit_vector)
    ensures
        (b0 >> 7) & 1 == 0 ==> spec_u64_be(b0, b1, b2, b3, b4, b5, b6, b7) < 0x8000000000000000,
{
}

/// Inbound extended lengths are read big-endian, and a 127-sentinel length
/// with its most significant bit set is always rejected.
pub proof fn lemma_extended_length_big_endian(length7: u8, ext: Seq<u8>)
    requires
        length7 < 128,
        ext.len() == spec_extended_size(length7),
    ensures
        length7 == 126 ==> spec_decoded_length(length7, ext) == Ok::<u64, WebSocketError>(
            spec_u16_be(ext[0], ext[1]) as u64,
        ),
        length7 == 127 && spec_bit(ext[0], 7) ==> spec_decoded_length(length7, ext) == Err::<
            u64,
            WebSocketError,
        >(
            WebSocketError::BadPayloadLength(
                spec_u64_be(ext[0], ext[1], ext[2], ext[3], ext[4], ext[5], ext[6], ext[7]),
            ),
        ),
        length7 == 127 && !spec_bit(ext[0], 7) ==> spec_decoded_length(length7, ext) == Ok::<
            u64,
            WebSocketError,
        >(spec_u64_be(ext[0], ext[1], ext[2], ext[3], ext[4], ext[5], ext[6], ext[7])),
{
}

/// The length field of a frame that starts a byte sequence: the payload
/// length and the offset of what follows it. Too few bytes is a stream error.
pub open spec fn spec_extended_length(bytes: Seq<u8>, length7: u8) -> Result<
    (u64, int),
    WebSocketError,
>
    recommends
        bytes.len() >= 2,
        length7 < 128,
{
    if length7 <= 125 {
        Ok((length7 as u64, 2))
    } else if length7 == 126 {
        if bytes.len() < 4 {
            Err(WebSocketError::Io)
        } else {
            Ok((spec_u16_be(bytes[2], bytes[3]) as u64, 4))
        }
    } else {
        if bytes.len() < 10 {
            Err(WebSocketError::Io)
        } else {
            let v = spec_u64_be(
                bytes[2],
                bytes[3],
                bytes[4],
                bytes[5],
                bytes[6],
                bytes[7],
                bytes[8],
                bytes[9],
            );
            if spec_bit(bytes[2], 7) {
                Err(WebSocketError::BadPayloadLength(v))
            } else {
                Ok((v, 10))
            }
        }
    }
}

/// A client-to-server frame at the head of a byte sequence: masked, with
/// the payload stored unmasked, and the count of bytes the frame took.
/// An unmasked frame is refused; too few bytes is a stream error.
pub open spec fn spec_read_frame(bytes: Seq<u8>) -> Result<(FrameModel, int), WebSocketError> {
    if bytes.len() < 2 {
        Err(WebSocketError::Io)
    } else {
        let b0 = bytes[0];
        let b1 = bytes[1];
        if !spec_bit(b1, 7) {
            Err(WebSocketError::UnencodedMessage)
        } else {
            match spec_opcode_from(b0 & 0x0F) {
                Err(e) => Err(e),
                Ok(opcode) => {
                    match spec_extended_length(bytes, b1 & 0x7F) {
                        Err(e) => Err(e),
                        Ok((payload_length, offset)) => {
                            if bytes.len() < offset + 4 {
                                Err(WebSocketError::Io)
                            } else {
                                let mask_key = bytes.subrange(offset, offset + 4);
                                if bytes.len() - offset - 4 < payload_length {
                                    Err(WebSocketError::Io)
                                } else {
                                    let raw = bytes.subrange(offset + 4, offset + 4 + payload_length);
                                    Ok(
                                        (
                                            FrameModel {
                                                fin: spec_bit(b0, 7),
                                                rsv1: spec_bit(b0, 6),
                                                rsv2: spec_bit(b0, 5),
                                                rsv3: spec_bit(b0, 4),
                                                opcode,
                                                mask: true,
                                                payload_length,
                                                mask_key: Some(mask_key),
                                                payload: spec_unmask(raw, mask_key),
                                            },
                                            offset + 4 + payload_length,
                                        ),
                                    )
                                }
                            }
                        },
                    }
                },
            }
        }
    }
}

/// A masked frame whose length sentinel is 127 and whose eight-byte
/// extended length has its top bit set always fails with
/// `BadPayloadLength` carrying those eight bytes, provided its opcode is
/// valid — a reserved opcode is refused first, in the read order's step 3.
pub proof fn lemma_oversized_length_rejected(bytes: Seq<u8>)
    requires
        bytes.len() >= 10,
        spec_bit(bytes[1], 7),
        bytes[1] & 0x7F == 127,
        spec_opcode_from(bytes[0] & 0x0F) is Ok,
        spec_bit(bytes[2], 7),
    ensures
        spec_read_frame(bytes) == Err::<(FrameModel, int), WebSocketError>(
            WebSocketError::BadPayloadLength(
                spec_u64_be(
                    bytes[2],
                    bytes[3],
                    bytes[4],
                    bytes[5],
                    bytes[6],
                    bytes[7],
                    bytes[8],
                    bytes[9],
                ),
            ),
        ),
{
}

/// A frame at the head of a byte sequence, read by structure alone: the
/// mask bit decides whether a key and masking are present. Server-written
/// frames, which carry no mask, decode this way.
pub open spec fn spec_decode_frame(bytes: Seq<u8>) -> Result<(FrameModel, int), WebSocketError> {
    if bytes.len() < 2 {
        Err(WebSocketError::Io)
    } else {
        let b0 = bytes[0];
        let b1 = bytes[1];
        match spec_opcode_from(b0 & 0x0F) {
            Err(e) => Err(e),
            Ok(opcode) => match spec_extended_length(bytes, b1 & 0x7F) {
                Err(e) => Err(e),
                Ok((payload_length, offset)) => {
                    if spec_bit(b1, 7) {
                        if bytes.len() < offset + 4 {
                            Err(WebSocketError::Io)
                        } else {
                            let mask_key = bytes.subrange(offset, offset + 4);
                            if bytes.len() - offset - 4 < payload_length {
                                Err(WebSocketError::Io)
                            } else {
                                let raw = bytes.subrange(offset + 4, offset + 4 + payload_length);
                                Ok(
                                    (
                                        FrameModel {
                                            fin: spec_bit(b0, 7),
                                            rsv1: spec_bit(b0, 6),
                                            rsv2: spec_bit(b0, 5),
                                            rsv3: spec_bit(b0, 4),
                                            opcode,
                                            mask: true,
                                            payload_length,
                                            mask_key: Some(mask_key),
                                            payload: spec_unmask(raw, mask_key),
                                        },
                                        offset + 4 + payload_length,
                                    ),
                                )
                            }
                        }
                    } else {
                        if bytes.len() - offset < payload_length {
                            Err(WebSocketError::Io)
                        } else {
                            let raw = bytes.subrange(offset, offset + payload_length);
                            Ok(
                                (
                                    FrameModel {
                                        fin: spec_bit(b0, 7),
                                        rsv1: spec_bit(b0, 6),
                                        rsv2: spec_bit(b0, 5),
                                        rsv3: spec_bit(b0, 4),
                                        opcode,
                                        mask: false,
                                        payload_length,
                                        mask_key: None,
                                        payload: raw,
                                    },
                                    offset + payload_length,
                                ),
                            )
                        }
                    }
                },
            },
        }
    }
}

proof fn lemma_length7_bound(b1: u8)
    by (bit_vector)
    ensures
        b1 & 0x7F < 128,
{
}

/// Reads one client-to-server frame from the head of a byte sequence,
/// returning the frame and how many bytes of the sequence it took.
pub fn read_dataframe(bytes: &Vec<u8>) -> (r: Result<(DataFrame, usize), WebSocketError>)
    ensures
        r is Ok <==> spec_read_frame(bytes@) is Ok,
        r matches Ok(q) ==> spec_read_frame(bytes@) matches Ok(p) && q.0@ == p.0 && q.1 as int
            == p.1,
        r matches Err(e) ==> spec_read_frame(bytes@) == Err::<(FrameModel, int), WebSocketError>(e),
{
    let n = bytes.len();
    if n < 2 {
        return Err(WebSocketError::Io);
    }
    let b0 = bytes[0];
    let b1 = bytes[1];
    if !bit(b1, 7) {
        return Err(WebSocketError::UnencodedMessage);
    }
    let opcode = match OpCode::try_from(b0 & 0x0F) {
        Ok(op) => op,
        Err(e) => {
            return Err(e);
        },
    };
    let length7 = b1 & 0x7F;
    proof {
        lemma_length7_bound(b1);
    }
    let ext_size = extended_length_size(length7) as usize;
    if n < 2 + ext_size {
        return Err(WebSocketError::Io);
    }
    let mut ext: Vec<u8> = Vec::new();
    let mut i: usize = 0;
    while i < ext_size
        invariant
            i <= ext_size,
            ext_size <= 8,
            2 + ext_size <= n,
            n == bytes@.len(),
            ext@.len() == i,
            forall|q: int| 0 <= q < i ==> ext@[q] == bytes@[2 + q],
        decreases ext_size - i,
    {
        ext.push(bytes[2 + i]);
        i = i + 1;
    }
    let payload_length = match decode_payload_length(length7, &ext) {
        Ok(v) => v,
        Err(e) => {
            return Err(e);
        },
    };
    let offset = 2 + ext_size;
    proof {
        assert(spec_extended_length(bytes@, length7) == Ok::<(u64, int), WebSocketError>(
            (payload_length, offset as int),
        ));
    }
    if n - offset < 4 {
        return Err(WebSocketError::Io);
    }
    let mask_key: [u8; 4] = [bytes[offset], bytes[offset + 1], bytes[offset + 2], bytes[offset + 3]];
    proof {
        assert(mask_key@ =~= bytes@.subrange(offset as int, offset as int + 4));
    }
    let available = n - offset - 4;
    if payload_length > available as u64 {
        return Err(WebSocketError::Io);
    }
    let data_offset = offset + 4;
    let count = payload_length as usize;
    let mut raw: Vec<u8> = Vec::new();
    let mut t: usize = 0;
    while t < count
        invariant
            t <= count,
            data_offset + count <= n,
            n == bytes@.len(),
            raw@.len() == t,
            forall|q: int| 0 <= q < t ==> raw@[q] == bytes@[data_offset + q],
        decreases count - t,
    {
        raw.push(bytes[data_offset + t]);
        t = t + 1;
    }
    proof {
        assert(raw@ =~= bytes@.subrange(data_offset as int, data_offset as int + count as int));
    }
    let payload = unmask(&raw, &mask_key);
    let frame = DataFrame {
        fin: bit(b0, 7),
        rsv1: bit(b0, 6),
        rsv2: bit(b0, 5),
        rsv3: bit(b0, 4),
        opcode,
        mask: true,
        payload_length,
        mask_key: Some(mask_key),
        payload,
    };
    let consumed = data_offset + count;
    proof {
        let p = spec_read_frame(bytes@)->Ok_0;
        assert(frame@ =~= p.0);
    }
    Ok((frame, consumed))
}

/// Reads one frame from the head of a byte sequence by structure alone:
/// the mask bit decides whether a key follows and the payload is unmasked.
pub fn decode_dataframe(bytes: &Vec<u8>) -> (r: Result<(DataFrame, usize), WebSocketError>)
    ensures
        r is Ok <==> spec_decode_frame(bytes@) is Ok,
        r matches Ok(q) ==> spec_decode_frame(bytes@) matches Ok(p) && q.0@ == p.0 && q.1 as int
            == p.1,
        r matches Err(e) ==> spec_decode_frame(bytes@) == Err::<(FrameModel, int), WebSocketError>(
            e,
        ),
{
    let n = bytes.len();
    if n < 2 {
        return Err(WebSocketError::Io);
    }
    let b0 = bytes[0];
    let b1 = bytes[1];
    let opcode = match OpCode::try_from(b0 & 0x0F) {
        Ok(op) => op,
        Err(e) => {
            return Err(e);
        },
    };
    let length7 = b1 & 0x7F;
    proof {
        lemma_length7_bound(b1);
    }
    let ext_size = extended_length_size(length7) as usize;
    if n < 2 + ext_size {
        return Err(WebSocketError::Io);
    }
    let mut ext: Vec<u8> = Vec::new();
    let mut i: usize = 0;
    while i < ext_size
        invariant
            i <= ext_size,
            ext_size <= 8,
            2 + ext_size <= n,
            n == bytes@.len(),
            ext@.len() == i,
            forall|q: int| 0 <= q < i ==> ext@[q] == bytes@[2 + q],
        decreases ext_size - i,
    {
        ext.push(bytes[2 + i]);
        i = i + 1;
    }
    let payload_length = match decode_payload_length(length7, &ext) {
        Ok(v) => v,
        Err(e) => {
            return Err(e);
        },
    };
    let offset = 2 + ext_size;
    proof {
        assert(spec_extended_length(bytes@, length7) == Ok::<(u64, int), WebSocketError>(
            (payload_length, offset as int),
        ));
    }
    if bit(b1, 7) {
        if n - offset < 4 {
            return Err(WebSocketError::Io);
        }
        let mask_key: [u8; 4] = [
            bytes[offset],
            bytes[offset + 1],
            bytes[offset + 2],
            bytes[offset + 3],
        ];
        proof {
            assert(mask_key@ =~= bytes@.subrange(offset as int, offset as int + 4));
        }
        let available = n - offset - 4;
        if payload_length > available as u64 {
            return Err(WebSocketError::Io);
        }
        let data_offset = offset + 4;
        let count = payload_length as usize;
        let mut raw: Vec<u8> = Vec::new();
        let mut t: usize = 0;
        while t < count
            invariant
                t <= count,
                data_offset + count <= n,
                n == bytes@.len(),
                raw@.len() == t,
                forall|q: int| 0 <= q < t ==> raw@[q] == bytes@[data_offset + q],
            decreases count - t,
        {
            raw.push(bytes[data_offset + t]);
            t = t + 1;
        }
        proof {
            assert(raw@ =~= bytes@.subrange(data_offset as int, data_offset as int + count as int));
        }
        let payload = unmask(&raw, &mask_key);
        let frame = DataFrame {
            fin: bit(b0, 7),
            rsv1: bit(b0, 6),
            rsv2: bit(b0, 5),
            rsv3: bit(b0, 4),
            opcode,
            mask: true,
            payload_length,
            mask_key: Some(mask_key),
            payload,
        };
        let consumed = data_offset + count;
        proof {
            let p = spec_decode_frame(bytes@)->Ok_0;
            assert(frame@ =~= p.0);
        }
        Ok((frame, consumed))
    } else {
        let available = n - offset;
        if payload_length > available as u64 {
            return Err(WebSocketError::Io);
        }
        let count = payload_length as usize;
        let mut payload: Vec<u8> = Vec::new();
        let mut t: usize = 0;
        while t < count
            invariant
                t <= count,
                offset + count <= n,
                n == bytes@.len(),
                payload@.len() == t,
                forall|q: int| 0 <= q < t ==> payload@[q] == bytes@[offset + q],
            decreases count - t,
        {
            payload.push(bytes[offset + t]);
            t = t + 1;
        }
        proof {
            assert(payload@ =~= bytes@.subrange(offset as int, offset as int + count as int));
        }
        let frame = DataFrame {
            fin: bit(b0, 7),
            rsv1: bit(b0, 6),
            rsv2: bit(b0, 5),
            rsv3: bit(b0, 4),
            opcode,
            mask: false,
            payload_length,
            mask_key: None,
            payload,
        };
        let consumed = offset + count;
        proof {
            let p = spec_decode_frame(bytes@)->Ok_0;
            assert(frame@ =~= p.0);
        }
        Ok((frame, consumed))
    }
}

/// The frame the server writes for a payload: final, reserved bits clear,
/// never masked, with the payload's own length.
pub open spec fn spec_server_frame(payload: Seq<u8>, opcode: OpCode) -> FrameModel {
    FrameModel {
        fin: true,
        rsv1: false,
        rsv2: false,
        rsv3: false,
        opcode,
        mask: false,
        payload_length: payload.len() as u64,
        mask_key: None,
        payload,
    }
}

/// Serializes one server-to-client frame carrying the payload. Fails only
/// when the payload length cannot be carried in 63 bits.
pub fn encode_message(payload: Vec<u8>, opcode: OpCode) -> (r: Result<Vec<u8>, WebSocketError>)
    ensures
        match r {
            Ok(bytes) => payload@.len() < 0x8000000000000000 && bytes@ == spec_serialize(
                spec_server_frame(payload@, opcode),
            ),
            Err(e) => payload@.len() >= 0x8000000000000000 && e == WebSocketError::BadPayloadLength(
                payload@.len() as u64,
            ),
        },
{
    let payload_length = payload.len() as u64;
    let frame = DataFrame::new(true, false, false, false, opcode, false, payload_length, None, payload);
    frame.serialize()
}

/// The payload of a close frame: the status code big-endian, then the
/// reason text.
pub fn close_payload(close_code: CloseCode, message: &str) -> (payload: Vec<u8>)
    ensures
        payload@ == spec_u16_bytes(spec_close_code_value(close_code)) + message.spec_bytes(),
{
    let value = close_code.to_u16();
    let mut payload: Vec<u8> = Vec::new();
    payload.push(((value >> 8) & 0xFF) as u8);
    payload.push((value & 0xFF) as u8);
    let reason = message.as_bytes();
    let n = reason.len();
    let mut i: usize = 0;
    proof {
        assert(payload@ =~= spec_u16_bytes(spec_close_code_value(close_code)) + reason@.take(0));
    }
    while i < n
        invariant
            i <= n,
            n == reason@.len(),
            reason@ == message.spec_bytes(),
            payload@ == spec_u16_bytes(spec_close_code_value(close_code)) + reason@.take(i as int),
        decreases n - i,
    {
        payload.push(reason[i]);
        proof {
            assert(spec_u16_bytes(spec_close_code_value(close_code)) + reason@.take(i + 1) =~= (
            spec_u16_bytes(spec_close_code_value(close_code)) + reason@.take(i as int)).push(
                reason@[i as int],
            ));
        }
        i = i + 1;
    }
    proof {
        assert(reason@.take(n as int) =~= reason@);
        assert(spec_u16_bytes(spec_close_code_value(close_code)) + reason@.take(i as int) =~= (
        spec_u16_bytes(spec_close_code_value(close_code)) + reason@.take(n as int)));
    }
    payload
}

/// The constant two-byte ping frame: final, opcode ping, empty payload.
pub fn ping_frame_bytes() -> (bytes: Vec<u8>)
    ensures
        bytes@ == seq![0x89u8, 0x00u8],
{
    let mut bytes: Vec<u8> = Vec::new();
    bytes.push(0x89);
    bytes.push(0x00);
    proof {
        assert(bytes@ =~= seq![0x89u8, 0x00u8]);
    }
    bytes
}

/// The constant two-byte pong frame: final, opcode pong, empty payload.
pub fn pong_frame_bytes() -> (bytes: Vec<u8>)
    ensures
        bytes@ == seq![0x8Au8, 0x00u8],
{
    let mut bytes: Vec<u8> = Vec::new();
    bytes.push(0x8A);
    bytes.push(0x00);
    proof {
        assert(bytes@ =~= seq![0x8Au8, 0x00u8]);
    }
    bytes
}

/// A frame as the server writes it: unmasked, without a key, its length
/// field true to the payload and small enough for the wire.
pub open spec fn server_frame(m: FrameModel) -> bool {
    &&& m.mask == false
    &&& m.mask_key is None
    &&& m.payload_length == m.payload.len()
    &&& m.payload_length < 0x8000000000000000
}

/// Every opcode's wire value decodes back to the opcode.
proof fn lemma_opcode_roundtrip(op: OpCode)
    ensures
        opcode_value(op) <= 0xA,
        spec_opcode_from(opcode_value(op)) == Ok::<OpCode, WebSocketError>(op),
{
}

proof fn lemma_header_fields(fb: u8, r1: u8, r2: u8, r3: u8, ov: u8)
    by (bit_vector)
    requires
        fb == 0x80 || fb == 0,
        r1 == 0x40 || r1 == 0,
        r2 == 0x20 || r2 == 0,
        r3 == 0x10 || r3 == 0,
        ov <= 0x0A,
    ensures
        (fb | r1 | r2 | r3 | ov) & 0x0F == ov,
        ((fb | r1 | r2 | r3 | ov) >> 7) & 1 != 0 <==> fb != 0,
        ((fb | r1 | r2 | r3 | ov) >> 6) & 1 != 0 <==> r1 != 0,
        ((fb | r1 | r2 | r3 | ov) >> 5) & 1 != 0 <==> r2 != 0,
        ((fb | r1 | r2 | r3 | ov) >> 4) & 1 != 0 <==> r3 != 0,
{
}

proof fn lemma_mask_byte_fields(mb: u8, sentinel: u8)
    by (bit_vector)
    requires
        mb == 0x80 || mb == 0,
        sentinel <= 127,
    ensures
        ((mb | sentinel) >> 7) & 1 != 0 <==> mb != 0,
        (mb | sentinel) & 0x7F == sentinel,
{
}

/// Round trip: a frame written under the server-side rules decodes back
/// to the very same frame, taking exactly the bytes that were written.
pub proof fn lemma_server_frame_roundtrip(m: FrameModel)
    requires
        server_frame(m),
    ensures
        spec_decode_frame(spec_serialize(m)) == Ok::<(FrameModel, int), WebSocketError>(
            (m, spec_serialize(m).len() as int),
        ),
{
    let bytes = spec_serialize(m);
    let h = spec_header_byte(m);
    let mb = spec_mask_byte(m);
    let ext = spec_length_ext_bytes(m.payload_length);
    let sentinel = spec_length_sentinel(m.payload_length);
    let plen = m.payload_length;
    assert(bytes.len() == 2 + ext.len() + m.payload.len());
    assert(bytes[0] == h);
    assert(bytes[1] == mb);
    lemma_opcode_roundtrip(m.opcode);
    let fb: u8 = if m.fin {
        0x80
    } else {
        0
    };
    let r1: u8 = if m.rsv1 {
        0x40
    } else {
        0
    };
    let r2: u8 = if m.rsv2 {
        0x20
    } else {
        0
    };
    let r3: u8 = if m.rsv3 {
        0x10
    } else {
        0
    };
    lemma_header_fields(fb, r1, r2, r3, opcode_value(m.opcode));
    assert(h == (fb | r1 | r2 | r3 | opcode_value(m.opcode)));
    assert(spec_opcode_from(h & 0x0F) == Ok::<OpCode, WebSocketError>(m.opcode));
    assert(spec_bit(h, 7) == m.fin);
    assert(spec_bit(h, 6) == m.rsv1);
    assert(spec_bit(h, 5) == m.rsv2);
    assert(spec_bit(h, 4) == m.rsv3);
    assert(sentinel <= 127);
    lemma_mask_byte_fields(0, sentinel);
    assert(mb == (0u8 | sentinel));
    assert(!spec_bit(mb, 7));
    assert(mb & 0x7F == sentinel);
    if plen < 126 {
        assert(ext.len() == 0);
        assert(sentinel == plen as u8);
        assert(sentinel <= 125);
        assert(spec_extended_length(bytes, sentinel) == Ok::<(u64, int), WebSocketError>(
            (plen, 2),
        ));
    } else if plen < 65536 {
        assert(sentinel == 126);
        assert(ext =~= spec_u16_bytes(plen as u16));
        assert(bytes[2] == ext[0] && bytes[3] == ext[1]);
        crate::endian::lemma_u16_bytes_roundtrip(plen as u16);
        assert(spec_u16_be(bytes[2], bytes[3]) == plen as u16);
        assert(spec_extended_length(bytes, sentinel) == Ok::<(u64, int), WebSocketError>(
            (plen, 4),
        ));
    } else {
        assert(sentinel == 127);
        assert(ext =~= spec_u64_bytes(plen));
        assert(bytes[2] == ext[0] && bytes[3] == ext[1] && bytes[4] == ext[2] && bytes[5] == ext[3]
            && bytes[6] == ext[4] && bytes[7] == ext[5] && bytes[8] == ext[6] && bytes[9] == ext[7]);
        crate::endian::lemma_u64_bytes_roundtrip(plen);
        assert(spec_u64_be(
            bytes[2],
            bytes[3],
            bytes[4],
            bytes[5],
            bytes[6],
            bytes[7],
            bytes[8],
            bytes[9],
        ) == plen);
        assert(!spec_bit(bytes[2], 7));
        assert(spec_extended_length(bytes, sentinel) == Ok::<(u64, int), WebSocketError>(
            (plen, 10),
        ));
    }
    let offset = 2 + ext.len() as int;
    assert(bytes.len() - offset == plen);
    assert(bytes.subrange(offset, offset + plen) =~= m.payload);
    let decoded = spec_decode_frame(bytes)->Ok_0;
    assert(decoded.0 =~= m);
    assert(decoded.1 == bytes.len() as int);
}

} // verus!
