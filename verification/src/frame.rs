//! Fixed-length frames, version 1.
//!
//! Every frame is exactly [`FRAME_SIZE`] bytes on the wire:
//!
//! ```text
//! [version: 1 B][type: 1 B][len: 2 B, big endian][payload: len B][padding]
//! ```
//!
//! The padding is filled with random bytes, so that only the frame count, and
//! not the length of a message, is visible on the wire.
use vstd::prelude::*;
use crate::entropy::fill_random;

verus! {

/// Length of every frame, in bytes.
pub const FRAME_SIZE: usize = 256;

/// Length of the header: version (1 B), type (1 B), payload length (2 B).
pub const HEADER_SIZE: usize = 4;

/// Largest payload that fits in one frame.
pub const MAX_PAYLOAD: usize = FRAME_SIZE - HEADER_SIZE;

/// Protocol version written in the first byte of every frame.
pub const PROTOCOL_VERSION: u8 = 0x01;

/// The kinds of frame.
#[derive(Debug, Clone, Copy, PartialEq, Eq, Structural)]
pub enum FrameType {
    /// A chat message (byte 0x01).
    Message,
    /// Keepalive, reserved for cover traffic (byte 0x02).
    Dummy,
    /// A control signal such as the end of the session (byte 0x03).
    Control,
    /// The nonce exchange of the pairing code (byte 0x04).
    SasHandshake,
}

/// Why a frame could not be written or read.
#[derive(Debug, Clone, Copy, PartialEq, Eq, Structural)]
pub enum FrameError {
    /// The payload does not fit in one frame.
    PayloadTooLarge { len: usize },
    /// The first byte is not [`PROTOCOL_VERSION`].
    VersionMismatch { found: u8 },
    /// The type byte names no [`FrameType`].
    UnknownFrameType(u8),
    /// The length field is larger than [`MAX_PAYLOAD`].
    LengthFieldTooLarge(usize),
}

/// A frame as received: its type and its payload, without the padding.
pub struct Frame {
    pub frame_type: FrameType,
    pub payload: Vec<u8>,
}

impl FrameType {
    /// The byte that stands for this type on the wire.
    pub open spec fn wire_byte(self) -> u8 {
        match self {
            FrameType::Message => 0x01,
            FrameType::Dummy => 0x02,
            FrameType::Control => 0x03,
            FrameType::SasHandshake => 0x04,
        }
    }

    /// The byte that stands for this type on the wire.
    pub fn to_byte(self) -> (b: u8)
        ensures
            b == self.wire_byte(),
    {
        match self {
            FrameType::Message => 0x01,
            FrameType::Dummy => 0x02,
            FrameType::Control => 0x03,
            FrameType::SasHandshake => 0x04,
        }
    }

    /// Reads a type byte; any byte but 0x01..=0x04 is an error.
    pub fn from_byte(b: u8) -> (r: Result<FrameType, FrameError>)
        ensures
            r == frame_type_of(b),
    {
        match b {
            0x01 => Ok(FrameType::Message),
            0x02 => Ok(FrameType::Dummy),
            0x03 => Ok(FrameType::Control),
            0x04 => Ok(FrameType::SasHandshake),
            x => Err(FrameError::UnknownFrameType(x)),
        }
    }
}

/// The frame type that a type byte stands for.
pub open spec fn frame_type_of(b: u8) -> Result<FrameType, FrameError> {
    if b == 0x01 {
        Ok(FrameType::Message)
    } else if b == 0x02 {
        Ok(FrameType::Dummy)
    } else if b == 0x03 {
        Ok(FrameType::Control)
    } else if b == 0x04 {
        Ok(FrameType::SasHandshake)
    } else {
        Err(FrameError::UnknownFrameType(b))
    }
}

/// The unsigned number that two bytes stand for, most significant first.
pub open spec fn be16(hi: u8, lo: u8) -> nat {
    (hi as nat) * 256 + (lo as nat)
}

/// The four header bytes of a frame of type `t` with a payload of `len` bytes.
pub open spec fn frame_header(t: FrameType, len: nat) -> Seq<u8> {
    seq![PROTOCOL_VERSION, t.wire_byte(), (len / 256) as u8, (len % 256) as u8]
}

/// The bytes of a frame: header, payload, then padding.
pub open spec fn frame_bytes(t: FrameType, payload: Seq<u8>, padding: Seq<u8>) -> Seq<u8> {
    frame_header(t, payload.len()) + payload + padding
}

/// What a frame's bytes say: its type and payload, or why they are refused.
/// The version is checked first, then the type, then the length field.
pub open spec fn parse_frame(b: Seq<u8>) -> Result<(FrameType, Seq<u8>), FrameError>
    recommends
        b.len() == FRAME_SIZE,
{
    if b[0] != PROTOCOL_VERSION {
        Err(FrameError::VersionMismatch { found: b[0] })
    } else {
        match frame_type_of(b[1]) {
            Err(e) => Err(e),
            Ok(t) => {
                let len = be16(b[2], b[3]);
                if len > MAX_PAYLOAD {
                    Err(FrameError::LengthFieldTooLarge(len as usize))
                } else {
                    Ok((t, b.subrange(HEADER_SIZE as int, HEADER_SIZE + len)))
                }
            },
        }
    }
}

/// A decoded frame seen as its type and payload.
pub open spec fn frame_view(r: Result<Frame, FrameError>) -> Result<(FrameType, Seq<u8>), FrameError> {
    match r {
        Ok(f) => Ok((f.frame_type, f.payload@)),
        Err(e) => Err(e),
    }
}

/// Builds the frame for `payload` with the given padding bytes.
///
/// A payload longer than [`MAX_PAYLOAD`] is refused; otherwise the padding must
/// fill the frame up to [`FRAME_SIZE`].
pub fn encode_frame_with_padding(frame_type: FrameType, payload: &[u8], padding: &[u8]) -> (r:
    Result<Vec<u8>, FrameError>)
    requires
        payload@.len() <= MAX_PAYLOAD ==> padding@.len() == MAX_PAYLOAD - payload@.len(),
    ensures
        payload@.len() > MAX_PAYLOAD ==> r == Err::<Vec<u8>, FrameError>(
            FrameError::PayloadTooLarge { len: payload@.len() as usize },
        ),
        payload@.len() <= MAX_PAYLOAD ==> r is Ok && r->Ok_0@ == frame_bytes(
            frame_type,
            payload@,
            padding@,
        ),
{
    if payload.len() > MAX_PAYLOAD {
        return Err(FrameError::PayloadTooLarge { len: payload.len() });
    }
    let len = payload.len();
    let mut frame: Vec<u8> = Vec::with_capacity(FRAME_SIZE);
    frame.push(PROTOCOL_VERSION);
    frame.push(frame_type.to_byte());
    frame.push((len / 256) as u8);
    frame.push((len % 256) as u8);
    assert(frame@ == frame_header(frame_type, len as nat));
    append_bytes(&mut frame, payload);
    append_bytes(&mut frame, padding);
    Ok(frame)
}

/// Builds the frame for `payload`, padded with fresh random bytes.
///
/// A payload longer than [`MAX_PAYLOAD`] is refused.  Otherwise the frame is
/// [`FRAME_SIZE`] bytes long and starts with the header and the payload; the
/// padding after them is random.
pub fn encode_frame(frame_type: FrameType, payload: &[u8]) -> (r: Result<Vec<u8>, FrameError>)
    ensures
        payload@.len() > MAX_PAYLOAD ==> r == Err::<Vec<u8>, FrameError>(
            FrameError::PayloadTooLarge { len: payload@.len() as usize },
        ),
        payload@.len() <= MAX_PAYLOAD ==> r is Ok && r->Ok_0@.len() == FRAME_SIZE
            && r->Ok_0@.subrange(0, HEADER_SIZE + payload@.len()) == frame_header(
            frame_type,
            payload@.len(),
        ) + payload@,
        payload@.len() <= MAX_PAYLOAD ==> parse_frame(r->Ok_0@) == Ok::<
            (FrameType, Seq<u8>),
            FrameError,
        >((frame_type, payload@)),
{
    if payload.len() > MAX_PAYLOAD {
        return Err(FrameError::PayloadTooLarge { len: payload.len() });
    }
    let padding_len = MAX_PAYLOAD - payload.len();
    let mut padding = vec![0u8; padding_len];
    fill_random(padding.as_mut_slice());
    let r = encode_frame_with_padding(frame_type, payload, padding.as_slice());
    proof {
        let v = r->Ok_0@;
        let head = frame_header(frame_type, payload@.len()) + payload@;
        assert(v == head + padding@);
        assert(v.subrange(0, head.len() as int) == head);
        lemma_frame_roundtrip(frame_type, payload@, padding@);
    }
    r
}

/// Reads the type and payload out of the bytes of one frame.
///
/// The version byte is checked first, then the type byte, then the length
/// field; the padding is ignored.
pub fn decode_frame(bytes: &[u8; FRAME_SIZE]) -> (r: Result<Frame, FrameError>)
    ensures
        frame_view(r) == parse_frame(bytes@),
{
    if bytes[0] != PROTOCOL_VERSION {
        return Err(FrameError::VersionMismatch { found: bytes[0] });
    }
    let frame_type = match FrameType::from_byte(bytes[1]) {
        Ok(t) => t,
        Err(e) => {
            return Err(e);
        },
    };
    let len = (bytes[2] as usize) * 256 + (bytes[3] as usize);
    if len > MAX_PAYLOAD {
        return Err(FrameError::LengthFieldTooLarge(len));
    }
    let mut payload: Vec<u8> = Vec::with_capacity(len);
    let mut i: usize = 0;
    while i < len
        invariant
            len <= MAX_PAYLOAD,
            i <= len,
            bytes@.len() == FRAME_SIZE,
            payload@ == bytes@.subrange(HEADER_SIZE as int, HEADER_SIZE + i),
        decreases len - i,
    {
        payload.push(bytes[HEADER_SIZE + i]);
        i = i + 1;
    }
    Ok(Frame { frame_type, payload })
}

/// Appends `bytes` to the end of `out`.
fn append_bytes(out: &mut Vec<u8>, bytes: &[u8])
    ensures
        final(out)@ == old(out)@ + bytes@,
{
    let mut i: usize = 0;
    while i < bytes.len()
        invariant
            i <= bytes@.len(),
            out@ == old(out)@ + bytes@.subrange(0, i as int),
        decreases bytes@.len() - i,
    {
        out.push(bytes[i]);
        i = i + 1;
    }
    assert(bytes@.subrange(0, bytes@.len() as int) == bytes@);
}

/// Reading a frame gives back the type and payload that it was built from,
/// whatever its padding.
pub proof fn lemma_frame_roundtrip(t: FrameType, payload: Seq<u8>, padding: Seq<u8>)
    requires
        payload.len() <= MAX_PAYLOAD,
        padding.len() == MAX_PAYLOAD - payload.len(),
    ensures
        frame_bytes(t, payload, padding).len() == FRAME_SIZE,
        parse_frame(frame_bytes(t, payload, padding)) == Ok::<(FrameType, Seq<u8>), FrameError>(
            (t, payload),
        ),
{
    let b = frame_bytes(t, payload, padding);
    let len = payload.len();
    assert(b[0] == PROTOCOL_VERSION);
    assert(b[1] == t.wire_byte());
    assert(b[2] == (len / 256) as u8);
    assert(b[3] == (len % 256) as u8);
    assert(be16(b[2], b[3]) == len);
    assert(b.subrange(HEADER_SIZE as int, HEADER_SIZE + len) == payload);
}

/// The type byte of every frame type reads back as that type.
pub proof fn lemma_type_byte_roundtrip(t: FrameType)
    ensures
        frame_type_of(t.wire_byte()) == Ok::<FrameType, FrameError>(t),
{
}

/// Every refused type byte is outside 0x01..=0x04, and every byte in it is a type.
pub proof fn lemma_type_byte_domain(b: u8)
    ensures
        frame_type_of(b) is Ok <==> 0x01 <= b <= 0x04,
        frame_type_of(b) matches Ok(t) ==> t.wire_byte() == b,
{
}

} // verus!
