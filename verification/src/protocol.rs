use crate::codec::{
    copy_range, from_le_u32, from_le_u64, get_le_u32, get_le_u64, le_u32, le_u64, put_bytes, put_le_u32,
    put_le_u64, put_u8,
};
use vstd::prelude::*;

verus! {

/// Kind of a tunnel message.
#[derive(Debug, Clone, Copy, PartialEq, Eq, Structural)]
pub enum MsgType {
    HandshakeInit,
    HandshakeAck,
    OpenStream,
    Data,
    CloseStream,
    Error,
    Ping,
    Pong,
    /// Stateless anti-amplification challenge sent by the exit instead of creating a session.
    HandshakeChallenge,
    /// Measurement-only control-plane packet.
    Ant,
    /// Discovery control-plane advertisement.
    DiscoveryAdvertise,
    /// Discovery query for known nodes.
    DiscoveryQuery,
    /// Discovery response with bounded advertisements.
    DiscoveryResponse,
}

/// Header of every tunnel message. `hop_index` is the forward path position (client = 0).
#[derive(Debug, Clone, Copy, PartialEq, Eq, Structural)]
pub struct Header {
    pub version: u8,
    pub msg_type: MsgType,
    pub session_id: u32,
    pub stream_id: u32,
    pub seq: u64,
    pub hop_index: u8,
}

/// Per-stream reliable framing carried inside the payload of DATA messages.
#[derive(Debug, Clone, PartialEq, Eq)]
pub struct StreamFrame {
    pub stream_id: u32,
    pub frame_seq: u64,
    pub ack_seq: u64,
    pub payload: Vec<u8>,
}

/// A tunnel message: header plus opaque payload.
#[derive(Debug, Clone, PartialEq, Eq)]
pub struct TunnelMessage {
    pub header: Header,
    pub payload: Vec<u8>,
}

pub const PROTOCOL_VERSION: u8 = 1;

impl TunnelMessage {
    /// A message for the first hop (`hop_index` 0) of the current protocol version.
    pub fn new(msg_type: MsgType, session_id: u32, stream_id: u32, seq: u64, payload: Vec<u8>) -> (r: Self)
        ensures
            r.header == (Header {
                version: PROTOCOL_VERSION,
                msg_type,
                session_id,
                stream_id,
                seq,
                hop_index: 0,
            }),
            r.payload@ == payload@,
    {
        Self::with_hop(msg_type, session_id, stream_id, seq, 0, payload)
    }

    /// A message of the current protocol version with an explicit hop index.
    pub fn with_hop(
        msg_type: MsgType,
        session_id: u32,
        stream_id: u32,
        seq: u64,
        hop_index: u8,
        payload: Vec<u8>,
    ) -> (r: Self)
        ensures
            r.header == (Header {
                version: PROTOCOL_VERSION,
                msg_type,
                session_id,
                stream_id,
                seq,
                hop_index,
            }),
            r.payload@ == payload@,
    {
        Self {
            header: Header {
                version: PROTOCOL_VERSION,
                msg_type,
                session_id,
                stream_id,
                seq,
                hop_index,
            },
            payload,
        }
    }
}


/// Why bytes could not be decoded into a message.
#[derive(Debug, Clone, Copy, PartialEq, Eq, Structural)]
pub enum DecodeError {
    /// The bytes end before the message does.
    Truncated,
    /// The message type tag names no message type.
    UnknownMessageType,
}

/// Position of a message type in the declaration order; its tag on the wire.
pub open spec fn msg_type_index(t: MsgType) -> u32 {
    match t {
        MsgType::HandshakeInit => 0,
        MsgType::HandshakeAck => 1,
        MsgType::OpenStream => 2,
        MsgType::Data => 3,
        MsgType::CloseStream => 4,
        MsgType::Error => 5,
        MsgType::Ping => 6,
        MsgType::Pong => 7,
        MsgType::HandshakeChallenge => 8,
        MsgType::Ant => 9,
        MsgType::DiscoveryAdvertise => 10,
        MsgType::DiscoveryQuery => 11,
        MsgType::DiscoveryResponse => 12,
    }
}

/// The message type with the given tag, if any.
pub open spec fn msg_type_of_index(i: u32) -> Option<MsgType> {
    if i == 0 {
        Some(MsgType::HandshakeInit)
    } else if i == 1 {
        Some(MsgType::HandshakeAck)
    } else if i == 2 {
        Some(MsgType::OpenStream)
    } else if i == 3 {
        Some(MsgType::Data)
    } else if i == 4 {
        Some(MsgType::CloseStream)
    } else if i == 5 {
        Some(MsgType::Error)
    } else if i == 6 {
        Some(MsgType::Ping)
    } else if i == 7 {
        Some(MsgType::Pong)
    } else if i == 8 {
        Some(MsgType::HandshakeChallenge)
    } else if i == 9 {
        Some(MsgType::Ant)
    } else if i == 10 {
        Some(MsgType::DiscoveryAdvertise)
    } else if i == 11 {
        Some(MsgType::DiscoveryQuery)
    } else if i == 12 {
        Some(MsgType::DiscoveryResponse)
    } else {
        None
    }
}

pub fn msg_type_tag(t: MsgType) -> (r: u32)
    ensures
        r == msg_type_index(t),
        msg_type_of_index(r) == Some(t),
{
    match t {
        MsgType::HandshakeInit => 0,
        MsgType::HandshakeAck => 1,
        MsgType::OpenStream => 2,
        MsgType::Data => 3,
        MsgType::CloseStream => 4,
        MsgType::Error => 5,
        MsgType::Ping => 6,
        MsgType::Pong => 7,
        MsgType::HandshakeChallenge => 8,
        MsgType::Ant => 9,
        MsgType::DiscoveryAdvertise => 10,
        MsgType::DiscoveryQuery => 11,
        MsgType::DiscoveryResponse => 12,
    }
}

pub fn msg_type_from_tag(i: u32) -> (r: Option<MsgType>)
    ensures
        r == msg_type_of_index(i),
{
    if i == 0 {
        Some(MsgType::HandshakeInit)
    } else if i == 1 {
        Some(MsgType::HandshakeAck)
    } else if i == 2 {
        Some(MsgType::OpenStream)
    } else if i == 3 {
        Some(MsgType::Data)
    } else if i == 4 {
        Some(MsgType::CloseStream)
    } else if i == 5 {
        Some(MsgType::Error)
    } else if i == 6 {
        Some(MsgType::Ping)
    } else if i == 7 {
        Some(MsgType::Pong)
    } else if i == 8 {
        Some(MsgType::HandshakeChallenge)
    } else if i == 9 {
        Some(MsgType::Ant)
    } else if i == 10 {
        Some(MsgType::DiscoveryAdvertise)
    } else if i == 11 {
        Some(MsgType::DiscoveryQuery)
    } else if i == 12 {
        Some(MsgType::DiscoveryResponse)
    } else {
        None
    }
}

/// Wire bytes of a header: version, type tag, session id, stream id, seq, hop index
/// (multi-byte fields little-endian, the tag as 4 bytes); 22 bytes in all.
pub open spec fn header_bytes(h: Header) -> Seq<u8> {
    seq![h.version] + le_u32(msg_type_index(h.msg_type)) + le_u32(h.session_id) + le_u32(h.stream_id) + le_u64(h.seq)
        + seq![h.hop_index]
}

/// Wire bytes of a length-prefixed byte string (8-byte little-endian length).
pub open spec fn bytes_field(p: Seq<u8>) -> Seq<u8> {
    le_u64(p.len() as u64) + p
}

/// Wire bytes of a tunnel message: header then length-prefixed payload.
pub open spec fn tunnel_bytes(h: Header, payload: Seq<u8>) -> Seq<u8> {
    header_bytes(h) + bytes_field(payload)
}

/// Reading a tunnel message from the front of `s` (bytes after it are ignored).
pub open spec fn parse_tunnel(s: Seq<u8>) -> Result<(Header, Seq<u8>), DecodeError> {
    if s.len() < 5 {
        Err(DecodeError::Truncated)
    } else if msg_type_of_index(from_le_u32(s.subrange(1, 5))) is None {
        Err(DecodeError::UnknownMessageType)
    } else if s.len() < 30 {
        Err(DecodeError::Truncated)
    } else {
        let len = from_le_u64(s.subrange(22, 30));
        if len > s.len() - 30 {
            Err(DecodeError::Truncated)
        } else {
            Ok(
                (
                    Header {
                        version: s[0],
                        msg_type: msg_type_of_index(from_le_u32(s.subrange(1, 5)))->Some_0,
                        session_id: from_le_u32(s.subrange(5, 9)),
                        stream_id: from_le_u32(s.subrange(9, 13)),
                        seq: from_le_u64(s.subrange(13, 21)),
                        hop_index: s[21],
                    },
                    s.subrange(30, 30 + len),
                ),
            )
        }
    }
}

/// Encode a tunnel message for the wire.
pub fn encode(msg: &TunnelMessage) -> (r: Result<Vec<u8>, DecodeError>)
    ensures
        r matches Ok(v) && v@ == tunnel_bytes(msg.header, msg.payload@),
{
    let mut out: Vec<u8> = Vec::new();
    put_u8(&mut out, msg.header.version);
    put_le_u32(&mut out, msg_type_tag(msg.header.msg_type));
    put_le_u32(&mut out, msg.header.session_id);
    put_le_u32(&mut out, msg.header.stream_id);
    put_le_u64(&mut out, msg.header.seq);
    put_u8(&mut out, msg.header.hop_index);
    put_le_u64(&mut out, msg.payload.len() as u64);
    put_bytes(&mut out, msg.payload.as_slice());
    assert(out@ =~= tunnel_bytes(msg.header, msg.payload@));
    Ok(out)
}

/// Decode a tunnel message from the front of `data`.
pub fn decode(data: &[u8]) -> (r: Result<TunnelMessage, DecodeError>)
    ensures
        match (r, parse_tunnel(data@)) {
            (Ok(m), Ok((h, p))) => m.header == h && m.payload@ == p,
            (Err(e), Err(f)) => e == f,
            _ => false,
        },
{
    if data.len() < 5 {
        return Err(DecodeError::Truncated);
    }
    let tag = get_le_u32(data, 1);
    let msg_type = match msg_type_from_tag(tag) {
        Some(t) => t,
        None => return Err(DecodeError::UnknownMessageType),
    };
    if data.len() < 30 {
        return Err(DecodeError::Truncated);
    }
    let len = get_le_u64(data, 22);
    if len > (data.len() - 30) as u64 {
        return Err(DecodeError::Truncated);
    }
    let end = 30 + len as usize;
    let payload = copy_range(data, 30, end);
    Ok(
        TunnelMessage {
            header: Header {
                version: data[0],
                msg_type,
                session_id: get_le_u32(data, 5),
                stream_id: get_le_u32(data, 9),
                seq: get_le_u64(data, 13),
                hop_index: data[21],
            },
            payload,
        },
    )
}

/// Decoding gives back what was encoded, whatever bytes follow the message.
pub proof fn lemma_tunnel_roundtrip(h: Header, payload: Seq<u8>, rest: Seq<u8>)
    requires
        payload.len() <= u64::MAX,
    ensures
        parse_tunnel(tunnel_bytes(h, payload) + rest) == Ok::<(Header, Seq<u8>), DecodeError>((h, payload)),
{
    let s = tunnel_bytes(h, payload) + rest;
    let t = msg_type_index(h.msg_type);
    assert(s.subrange(1, 5) =~= le_u32(t));
    assert(s.subrange(5, 9) =~= le_u32(h.session_id));
    assert(s.subrange(9, 13) =~= le_u32(h.stream_id));
    assert(s.subrange(13, 21) =~= le_u64(h.seq));
    assert(s.subrange(22, 30) =~= le_u64(payload.len() as u64));
    assert(s.subrange(30, 30 + payload.len() as int) =~= payload);
    crate::codec::lemma_le_u32(t);
    crate::codec::lemma_le_u32(h.session_id);
    crate::codec::lemma_le_u32(h.stream_id);
    crate::codec::lemma_le_u64(h.seq);
    crate::codec::lemma_le_u64(payload.len() as u64);
    assert(msg_type_of_index(t) == Some(h.msg_type));
}

/// Wire bytes of a stream frame: stream id, frame seq, ack seq, length-prefixed payload.
pub open spec fn stream_frame_bytes(stream_id: u32, frame_seq: u64, ack_seq: u64, payload: Seq<u8>) -> Seq<u8> {
    le_u32(stream_id) + le_u64(frame_seq) + le_u64(ack_seq) + bytes_field(payload)
}

/// Reading a stream frame from the front of `s`: (stream id, frame seq, ack seq, payload).
pub open spec fn parse_stream_frame(s: Seq<u8>) -> Option<(u32, u64, u64, Seq<u8>)> {
    if s.len() < 28 {
        None
    } else {
        let len = from_le_u64(s.subrange(20, 28));
        if len > s.len() - 28 {
            None
        } else {
            Some(
                (
                    from_le_u32(s.subrange(0, 4)),
                    from_le_u64(s.subrange(4, 12)),
                    from_le_u64(s.subrange(12, 20)),
                    s.subrange(28, 28 + len),
                ),
            )
        }
    }
}

pub fn encode_stream_frame(f: &StreamFrame) -> (r: Vec<u8>)
    ensures
        r@ == stream_frame_bytes(f.stream_id, f.frame_seq, f.ack_seq, f.payload@),
{
    let mut out: Vec<u8> = Vec::new();
    put_le_u32(&mut out, f.stream_id);
    put_le_u64(&mut out, f.frame_seq);
    put_le_u64(&mut out, f.ack_seq);
    put_le_u64(&mut out, f.payload.len() as u64);
    put_bytes(&mut out, f.payload.as_slice());
    assert(out@ =~= stream_frame_bytes(f.stream_id, f.frame_seq, f.ack_seq, f.payload@));
    out
}

pub fn decode_stream_frame(data: &[u8]) -> (r: Option<StreamFrame>)
    ensures
        match (r, parse_stream_frame(data@)) {
            (Some(f), Some((id, fs, ack, p))) => f.stream_id == id && f.frame_seq == fs && f.ack_seq == ack
                && f.payload@ == p,
            (None, None) => true,
            _ => false,
        },
{
    if data.len() < 28 {
        return None;
    }
    let len = get_le_u64(data, 20);
    if len > (data.len() - 28) as u64 {
        return None;
    }
    let end = 28 + len as usize;
    Some(
        StreamFrame {
            stream_id: get_le_u32(data, 0),
            frame_seq: get_le_u64(data, 4),
            ack_seq: get_le_u64(data, 12),
            payload: copy_range(data, 28, end),
        },
    )
}

/// Decoding gives back the encoded stream frame.
pub proof fn lemma_stream_frame_roundtrip(stream_id: u32, frame_seq: u64, ack_seq: u64, payload: Seq<u8>, rest: Seq<u8>)
    requires
        payload.len() <= u64::MAX,
    ensures
        parse_stream_frame(stream_frame_bytes(stream_id, frame_seq, ack_seq, payload) + rest) == Some(
            (stream_id, frame_seq, ack_seq, payload),
        ),
{
    let s = stream_frame_bytes(stream_id, frame_seq, ack_seq, payload) + rest;
    assert(s.subrange(0, 4) =~= le_u32(stream_id));
    assert(s.subrange(4, 12) =~= le_u64(frame_seq));
    assert(s.subrange(12, 20) =~= le_u64(ack_seq));
    assert(s.subrange(20, 28) =~= le_u64(payload.len() as u64));
    assert(s.subrange(28, 28 + payload.len() as int) =~= payload);
    crate::codec::lemma_le_u32(stream_id);
    crate::codec::lemma_le_u64(frame_seq);
    crate::codec::lemma_le_u64(ack_seq);
    crate::codec::lemma_le_u64(payload.len() as u64);
}

} // verus!
