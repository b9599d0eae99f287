//! WebSocket frame parsing (RFC 6455) and the captured-message model.

use vstd::prelude::*;

verus! {

use crate::sys::{fresh_id, now_millis};

/// Largest payload prefix captured per frame: 256 KiB.
pub const MAX_WS_CAPTURE_BYTES: usize = 262144;

/// WebSocket frame opcode.
#[derive(Debug, Clone, Copy, PartialEq, Eq, Structural)]
pub enum WebSocketOpcode {
    /// Continuation frame.
    Continuation,
    /// Text frame.
    Text,
    /// Binary frame.
    Binary,
    /// Connection close frame.
    Close,
    /// Ping frame.
    Ping,
    /// Pong frame.
    Pong,
}

/// The opcode named by the low four bits of a byte, if any.
pub open spec fn spec_opcode_from(b: u8) -> Option<WebSocketOpcode> {
    match b & 0x0F {
        0u8 => Some(WebSocketOpcode::Continuation),
        1u8 => Some(WebSocketOpcode::Text),
        2u8 => Some(WebSocketOpcode::Binary),
        8u8 => Some(WebSocketOpcode::Close),
        9u8 => Some(WebSocketOpcode::Ping),
        10u8 => Some(WebSocketOpcode::Pong),
        _ => None,
    }
}

impl WebSocketOpcode {
    /// Parse the low four bits of an opcode byte.
    pub fn from_u8(opcode: u8) -> (r: Option<WebSocketOpcode>)
        ensures
            r == spec_opcode_from(opcode),
    {
        match opcode & 0x0F {
            0u8 => Some(WebSocketOpcode::Continuation),
            1u8 => Some(WebSocketOpcode::Text),
            2u8 => Some(WebSocketOpcode::Binary),
            8u8 => Some(WebSocketOpcode::Close),
            9u8 => Some(WebSocketOpcode::Ping),
            10u8 => Some(WebSocketOpcode::Pong),
            _ => None,
        }
    }

    /// The canonical upper-case name of the opcode.
    pub open spec fn name_chars(self) -> Seq<char> {
        match self {
            WebSocketOpcode::Continuation => "CONTINUATION"@,
            WebSocketOpcode::Text => "TEXT"@,
            WebSocketOpcode::Binary => "BINARY"@,
            WebSocketOpcode::Close => "CLOSE"@,
            WebSocketOpcode::Ping => "PING"@,
            WebSocketOpcode::Pong => "PONG"@,
        }
    }

    /// The canonical name, e.g. `TEXT`.
    pub fn as_str(&self) -> (r: &'static str)
        ensures
            r@ == self.name_chars(),
    {
        match self {
            WebSocketOpcode::Continuation => "CONTINUATION",
            WebSocketOpcode::Text => "TEXT",
            WebSocketOpcode::Binary => "BINARY",
            WebSocketOpcode::Close => "CLOSE",
            WebSocketOpcode::Ping => "PING",
            WebSocketOpcode::Pong => "PONG",
        }
    }
}

/// Direction of a WebSocket message through the proxy.
#[derive(Debug, Clone, Copy, PartialEq, Eq, Structural)]
pub enum MessageDirection {
    /// Client to server.
    ClientToServer,
    /// Server to client.
    ServerToClient,
}

impl MessageDirection {
    /// The arrow notation of the direction.
    pub open spec fn name_chars(self) -> Seq<char> {
        match self {
            MessageDirection::ClientToServer => "->"@,
            MessageDirection::ServerToClient => "<-"@,
        }
    }

    /// The arrow notation, `->` or `<-`.
    pub fn as_str(&self) -> (r: &'static str)
        ensures
            r@ == self.name_chars(),
    {
        match self {
            MessageDirection::ClientToServer => "->",
            MessageDirection::ServerToClient => "<-",
        }
    }
}

/// Parsed WebSocket frame header.
#[derive(Debug, Clone)]
pub struct FrameHeader {
    /// FIN bit: final frame of a message.
    pub fin: bool,
    /// Frame opcode.
    pub opcode: WebSocketOpcode,
    /// Whether the payload is masked.
    pub masked: bool,
    /// Payload length in bytes.
    pub payload_len: u64,
    /// The 4-byte masking key, present exactly when masked.
    pub mask_key: Option<[u8; 4]>,
    /// Length of the header itself in bytes.
    pub header_len: usize,
}

/// Big-endian 16-bit value of two bytes.
pub open spec fn spec_be16(a: u8, b: u8) -> u64 {
    ((a as u64) * 0x100 + (b as u64)) as u64
}

/// Big-endian 64-bit value of the eight bytes at `off`.
pub open spec fn spec_be64(d: Seq<u8>, off: int) -> u64 {
    ((d[off] as u64) << 56u64) | ((d[off + 1] as u64) << 48u64) | ((d[off + 2] as u64)
        << 40u64) | ((d[off + 3] as u64) << 32u64) | ((d[off + 4] as u64) << 24u64) | ((d[off
        + 5] as u64) << 16u64) | ((d[off + 6] as u64) << 8u64) | (d[off + 7] as u64)
}

/// The header length implied by the flags byte: base two, plus the
/// extended length field, plus the masking key.
pub open spec fn spec_header_len(b1: u8) -> int {
    2 + (if (b1 & 0x7F) == 126 {
        2int
    } else if (b1 & 0x7F) == 127 {
        8int
    } else {
        0int
    }) + (if (b1 & 0x80) != 0 {
        4int
    } else {
        0int
    })
}

/// The payload length encoded by the 7-bit field and, when it reads 126 or
/// 127, the extended field that follows.
pub open spec fn spec_payload_len(d: Seq<u8>) -> u64 {
    if (d[1] & 0x7F) == 126 {
        spec_be16(d[2], d[3])
    } else if (d[1] & 0x7F) == 127 {
        spec_be64(d, 2)
    } else {
        (d[1] & 0x7F) as u64
    }
}

/// What a complete frame header at the front of `d` parses to: `None`
/// while more bytes are needed or when the opcode is reserved.
pub open spec fn spec_parse_frame_header(d: Seq<u8>) -> Option<FrameHeader> {
    if d.len() < 2 {
        None
    } else if spec_opcode_from(d[0] & 0x0F) is None {
        None
    } else if d.len() < spec_header_len(d[1]) {
        None
    } else {
        let hlen = spec_header_len(d[1]);
        let mask_off = hlen - (if (d[1] & 0x80) != 0 {
            4int
        } else {
            0int
        });
        Some(
            FrameHeader {
                fin: (d[0] & 0x80) != 0,
                opcode: spec_opcode_from(d[0] & 0x0F)->0,
                masked: (d[1] & 0x80) != 0,
                payload_len: spec_payload_len(d),
                mask_key: if (d[1] & 0x80) != 0 {
                    Some([d[mask_off], d[mask_off + 1], d[mask_off + 2], d[mask_off + 3]])
                } else {
                    None
                },
                header_len: hlen as usize,
            },
        )
    }
}

/// Parse a frame header from the front of the buffer; `None` while the
/// buffer is too short or the opcode is reserved.
pub fn parse_frame_header(data: &[u8]) -> (r: Option<FrameHeader>)
    ensures
        r == spec_parse_frame_header(data@),
{
    if data.len() < 2 {
        return None;
    }
    let b0 = data[0];
    let b1 = data[1];
    let opcode = match WebSocketOpcode::from_u8(b0 & 0x0F) {
        Some(op) => op,
        None => {
            return None;
        },
    };
    let fin = (b0 & 0x80) != 0;
    let masked = (b1 & 0x80) != 0;
    let len7 = b1 & 0x7F;

    let ext_len: usize = if len7 == 126 {
        2
    } else if len7 == 127 {
        8
    } else {
        0
    };
    let mask_len: usize = if masked {
        4
    } else {
        0
    };
    let header_len: usize = 2 + ext_len + mask_len;
    if data.len() < header_len {
        return None;
    }

    let payload_len: u64 = if len7 == 126 {
        (data[2] as u64) * 0x100 + (data[3] as u64)
    } else if len7 == 127 {
        ((data[2] as u64) << 56u64) | ((data[3] as u64) << 48u64) | ((data[4] as u64)
            << 40u64) | ((data[5] as u64) << 32u64) | ((data[6] as u64) << 24u64) | ((data[7]
            as u64) << 16u64) | ((data[8] as u64) << 8u64) | (data[9] as u64)
    } else {
        len7 as u64
    };

    let mask_off: usize = 2 + ext_len;
    let mask_key: Option<[u8; 4]> = if masked {
        Some([data[mask_off], data[mask_off + 1], data[mask_off + 2], data[mask_off + 3]])
    } else {
        None
    };

    Some(FrameHeader { fin, opcode, masked, payload_len, mask_key, header_len })
}

/// The unmasked image of a payload: byte `i` is xor-ed with key byte
/// `i % 4`.
pub open spec fn spec_unmasked(d: Seq<u8>, key: [u8; 4]) -> Seq<u8> {
    Seq::new(d.len(), |i: int| d[i] ^ key@[i % 4])
}

/// Unmask payload data in place with the 4-byte key.
pub fn unmask_payload(data: &mut Vec<u8>, mask_key: [u8; 4])
    ensures
        final(data)@ == spec_unmasked(old(data)@, mask_key),
{
    let n = data.len();
    let mut i: usize = 0;
    while i < n
        invariant
            n == old(data)@.len(),
            data@.len() == n,
            i <= n,
            forall|j: int| 0 <= j < i ==> data@[j] == old(data)@[j] ^ mask_key@[j % 4],
            forall|j: int| i <= j < n ==> data@[j] == old(data)@[j],
        decreases n - i,
    {
        let b = data[i];
        data[i] = b ^ mask_key[i % 4];
        i += 1;
    }
    proof {
        assert(data@ =~= spec_unmasked(old(data)@, mask_key));
    }
}

/// A single captured WebSocket frame.
#[derive(Debug, Clone)]
pub struct WebSocketMessage {
    /// Unique identifier of this message.
    pub id: String,
    /// Identifier of the parent upgrade transaction.
    pub connection_id: String,
    /// Direction of the message.
    pub direction: MessageDirection,
    /// Frame opcode.
    pub opcode: WebSocketOpcode,
    /// Captured payload prefix, at most `MAX_WS_CAPTURE_BYTES` bytes.
    pub payload: Vec<u8>,
    /// True payload length on the wire.
    pub payload_length: u64,
    /// When the message was captured, milliseconds since the epoch.
    pub timestamp: i64,
    /// Whether the frame is part of a fragmented message.
    pub is_fragmented: bool,
    /// Whether this is the final frame of its message.
    pub is_final: bool,
}

impl WebSocketMessage {
    /// A freshly captured message; the payload is recorded as given and
    /// its true wire length separately.
    pub fn new(
        connection_id: String,
        direction: MessageDirection,
        opcode: WebSocketOpcode,
        payload: Vec<u8>,
        wire_length: u64,
        is_final: bool,
    ) -> (r: WebSocketMessage)
        ensures
            r.connection_id == connection_id,
            r.direction == direction,
            r.opcode == opcode,
            r.payload == payload,
            r.payload_length == wire_length,
            r.is_final == is_final,
            r.is_fragmented == false,
    {
        WebSocketMessage {
            id: fresh_id(),
            connection_id,
            direction,
            opcode,
            payload,
            payload_length: wire_length,
            timestamp: now_millis(),
            is_fragmented: false,
            is_final,
        }
    }
}

/// Extract one complete frame from the front of the buffer as a captured
/// message: `None` while the buffer holds no complete frame. The returned
/// count is the frame's full length on the wire; the message's payload is
/// the unmasked prefix of at most `MAX_WS_CAPTURE_BYTES` bytes, and its
/// recorded length the frame's true payload length.
pub fn extract_message(data: &[u8], connection_id: &str, direction: MessageDirection) -> (r:
    Option<(WebSocketMessage, usize)>)
    ensures
        match spec_parse_frame_header(data@) {
            None => r is None,
            Some(h) => {
                if data@.len() < h.header_len + h.payload_len {
                    r is None
                } else {
                    match r {
                        None => false,
                        Some((m, consumed)) => {
                            &&& consumed == h.header_len + h.payload_len
                            &&& m.opcode == h.opcode
                            &&& m.is_final == h.fin
                            &&& m.direction == direction
                            &&& m.connection_id@ == connection_id@
                            &&& m.payload_length == h.payload_len
                            &&& m.payload@.len() <= MAX_WS_CAPTURE_BYTES
                            &&& m.payload@ == (match h.mask_key {
                                Some(k) => spec_unmasked(
                                    data@.subrange(
                                        h.header_len as int,
                                        h.header_len + h.payload_len,
                                    ),
                                    k,
                                ),
                                None => data@.subrange(
                                    h.header_len as int,
                                    h.header_len + h.payload_len,
                                ),
                            }).take(
                                if h.payload_len > MAX_WS_CAPTURE_BYTES as u64 {
                                    MAX_WS_CAPTURE_BYTES as int
                                } else {
                                    h.payload_len as int
                                },
                            )
                        },
                    }
                }
            },
        },
{
    let header = match parse_frame_header(data) {
        Some(h) => h,
        None => {
            return None;
        },
    };

    let dlen: usize = data.len();
    if header.payload_len > (usize::MAX as u64) - (header.header_len as u64) {
        proof {
            assert(dlen <= usize::MAX);
            assert(data@.len() < header.header_len + header.payload_len);
        }
        return None;
    }
    let total_len: usize = header.header_len + (header.payload_len as usize);
    if data.len() < total_len {
        return None;
    }

    let mut payload: Vec<u8> = Vec::new();
    let start: usize = header.header_len;
    let mut i: usize = start;
    while i < total_len
        invariant
            start <= i <= total_len <= data@.len(),
            payload@ == data@.subrange(start as int, i as int),
        decreases total_len - i,
    {
        payload.push(data[i]);
        proof {
            assert(data@.subrange(start as int, i + 1) =~= data@.subrange(
                start as int,
                i as int,
            ).push(data@[i as int]));
        }
        i += 1;
    }

    if let Some(k) = header.mask_key {
        unmask_payload(&mut payload, k);
    }

    if payload.len() > MAX_WS_CAPTURE_BYTES {
        payload.truncate(MAX_WS_CAPTURE_BYTES);
    }
    proof {
        if header.payload_len > MAX_WS_CAPTURE_BYTES as u64 {
            assert(payload@ =~= payload@.take(MAX_WS_CAPTURE_BYTES as int));
        } else {
            assert(payload@ =~= payload@.take(header.payload_len as int));
        }
    }

    let msg = WebSocketMessage::new(
        connection_id.to_owned(),
        direction,
        header.opcode,
        payload,
        header.payload_len,
        header.fin,
    );
    Some((msg, total_len))
}

} // verus!
