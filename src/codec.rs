//! The wire codec: the fixed 68-byte handshake and length-prefixed frames.

use vstd::prelude::*;
use crate::buffer::{
    buf_freeze, buf_put_bytes, buf_put_slice, buf_put_u32, buf_put_u8, buf_with_capacity,
    bytes_contents, bytes_from_slice,
};
use crate::bytes_util::{
    be32, be32_value, bytes_equal, copy_range, lemma_be32_round_trip, push_u32_be,
    read_u32_be,
};

verus! {

/// Length of a handshake on the wire.
pub const HANDSHAKE_MESSAGE_SIZE: usize = 68;

/// Length of the protocol name that a handshake carries.
pub const PROTOCOL_NAME_LEN: u8 = 19;

/// Decode-level failures.
#[derive(Debug, Clone, Copy, PartialEq, Eq, Structural)]
pub enum WireError {
    /// Wrong size, wrong protocol-name length byte, or wrong protocol name.
    MalformedHandshake,
    /// Fewer bytes are available than the frame declares.
    TruncatedFrame,
    /// The type byte is outside the recognized set.
    UnknownMessageType(u8),
}

/// "BitTorrent protocol" as bytes.
pub open spec fn protocol_name() -> Seq<u8> {
    seq![66u8, 105u8, 116u8, 84u8, 111u8, 114u8, 114u8, 101u8, 110u8, 116u8, 32u8, 112u8, 114u8,
        111u8, 116u8, 111u8, 99u8, 111u8, 108u8]
}

/// The 68 bytes of a handshake for `info_hash` and `peer_id`.
pub open spec fn handshake_bytes(info_hash: Seq<u8>, peer_id: Seq<u8>) -> Seq<u8> {
    seq![PROTOCOL_NAME_LEN] + protocol_name() + Seq::new(8, |i: int| 0u8) + info_hash + peer_id
}

/// Whether `b` is a well-formed handshake.
pub open spec fn is_handshake(b: Seq<u8>) -> bool {
    &&& b.len() == HANDSHAKE_MESSAGE_SIZE
    &&& b[0] == PROTOCOL_NAME_LEN
    &&& b.subrange(1, 20) == protocol_name()
}

/// The bytes of the protocol name.
pub fn protocol_name_bytes() -> (r: Vec<u8>)
    ensures
        r@ == protocol_name(),
{
    let r: Vec<u8> = vec![66u8, 105u8, 116u8, 84u8, 111u8, 114u8, 114u8, 101u8, 110u8, 116u8,
        32u8, 112u8, 114u8, 111u8, 116u8, 111u8, 99u8, 111u8, 108u8];
    assert(r@ =~= protocol_name());
    r
}

/// A decoded handshake.
#[derive(Debug, Clone)]
pub struct Handshake {
    pub info_hash: Vec<u8>,
    pub peer_id: Vec<u8>,
}

/// Builds the handshake for `info_hash` and `peer_id`.
pub fn encode_handshake(info_hash: &[u8], peer_id: &[u8]) -> (r: bytes::Bytes)
    requires
        info_hash@.len() == 20,
        peer_id@.len() == 20,
    ensures
        bytes_contents(r) == handshake_bytes(info_hash@, peer_id@),
        bytes_contents(r).len() == HANDSHAKE_MESSAGE_SIZE,
{
    let mut m = buf_with_capacity(HANDSHAKE_MESSAGE_SIZE);
    buf_put_u8(&mut m, PROTOCOL_NAME_LEN);
    let name = protocol_name_bytes();
    buf_put_slice(&mut m, name.as_slice());
    buf_put_bytes(&mut m, 0, 8);
    assert(crate::buffer::buf_contents(m) =~= seq![PROTOCOL_NAME_LEN] + protocol_name() + Seq::new(
        8,
        |i: int| 0u8,
    ));
    buf_put_slice(&mut m, info_hash);
    buf_put_slice(&mut m, peer_id);
    buf_freeze(m)
}

/// Reads a handshake: fails with `MalformedHandshake` unless `b` is 68 bytes
/// that start with the length byte 19 and the protocol name. The reserved
/// bytes are not inspected.
pub fn decode_handshake(b: &[u8]) -> (r: Result<Handshake, WireError>)
    ensures
        match r {
            Ok(h) => is_handshake(b@) && h.info_hash@ == b@.subrange(28, 48) && h.peer_id@
                == b@.subrange(48, 68),
            Err(e) => !is_handshake(b@) && e == WireError::MalformedHandshake,
        },
{
    if b.len() != HANDSHAKE_MESSAGE_SIZE || b[0] != PROTOCOL_NAME_LEN {
        return Err(WireError::MalformedHandshake);
    }
    let name = protocol_name_bytes();
    let got = copy_range(b, 1, 20);
    if !bytes_equal(got.as_slice(), name.as_slice()) {
        return Err(WireError::MalformedHandshake);
    }
    Ok(Handshake { info_hash: copy_range(b, 28, 48), peer_id: copy_range(b, 48, 68) })
}

/// Decoding an encoded handshake gives back its info hash and peer id.
pub proof fn lemma_handshake_round_trip(info_hash: Seq<u8>, peer_id: Seq<u8>)
    requires
        info_hash.len() == 20,
        peer_id.len() == 20,
    ensures
        is_handshake(handshake_bytes(info_hash, peer_id)),
        handshake_bytes(info_hash, peer_id).subrange(28, 48) == info_hash,
        handshake_bytes(info_hash, peer_id).subrange(48, 68) == peer_id,
{
    let b = handshake_bytes(info_hash, peer_id);
    assert(b.subrange(1, 20) =~= protocol_name());
    assert(b.subrange(28, 48) =~= info_hash);
    assert(b.subrange(48, 68) =~= peer_id);
}

/// The message types of the peer wire protocol.
#[derive(Debug, Clone, Copy, PartialEq, Eq, Structural)]
pub enum PeerMessageType {
    Choke,
    Unchoke,
    Interested,
    NotInterested,
    Have,
    Bitfield,
    Request,
    Piece,
    Cancel,
}

/// The type byte of each message type.
pub open spec fn type_id(t: PeerMessageType) -> u8 {
    match t {
        PeerMessageType::Choke => 0,
        PeerMessageType::Unchoke => 1,
        PeerMessageType::Interested => 2,
        PeerMessageType::NotInterested => 3,
        PeerMessageType::Have => 4,
        PeerMessageType::Bitfield => 5,
        PeerMessageType::Request => 6,
        PeerMessageType::Piece => 7,
        PeerMessageType::Cancel => 8,
    }
}

/// Types whose frames carry a payload after the type byte.
pub open spec fn carries_payload(t: PeerMessageType) -> bool {
    type_id(t) >= 4
}

impl PeerMessageType {
    /// Whether frames of this type carry a payload.
    pub fn has_payload(&self) -> (r: bool)
        ensures
            r == carries_payload(*self),
    {
        match self {
            PeerMessageType::Choke => false,
            PeerMessageType::Unchoke => false,
            PeerMessageType::Interested => false,
            PeerMessageType::NotInterested => false,
            PeerMessageType::Have => true,
            PeerMessageType::Bitfield => true,
            PeerMessageType::Request => true,
            PeerMessageType::Piece => true,
            PeerMessageType::Cancel => true,
        }
    }

    /// The type byte on the wire.
    pub fn id(&self) -> (r: u8)
        ensures
            r == type_id(*self),
    {
        match self {
            PeerMessageType::Choke => 0,
            PeerMessageType::Unchoke => 1,
            PeerMessageType::Interested => 2,
            PeerMessageType::NotInterested => 3,
            PeerMessageType::Have => 4,
            PeerMessageType::Bitfield => 5,
            PeerMessageType::Request => 6,
            PeerMessageType::Piece => 7,
            PeerMessageType::Cancel => 8,
        }
    }
}

/// The message type of a known type byte.
pub fn get_message_type(message_id: u8) -> (r: PeerMessageType)
    requires
        message_id <= 8,
    ensures
        type_id(r) == message_id,
{
    match message_id {
        0 => PeerMessageType::Choke,
        1 => PeerMessageType::Unchoke,
        2 => PeerMessageType::Interested,
        3 => PeerMessageType::NotInterested,
        4 => PeerMessageType::Have,
        5 => PeerMessageType::Bitfield,
        6 => PeerMessageType::Request,
        7 => PeerMessageType::Piece,
        _ => PeerMessageType::Cancel,
    }
}

/// A frame with a type byte.
#[derive(Debug)]
pub struct PeerMessage {
    /// The declared length: one for the type byte plus the payload.
    pub message_length_prefix: u32,
    pub message_id: PeerMessageType,
    pub payload: bytes::Bytes,
}

/// A decoded frame.
#[derive(Debug)]
pub enum Frame {
    /// The zero-length frame.
    KeepAlive,
    Message(PeerMessage),
}

/// The bytes of a frame of type `t` with `payload`.
pub open spec fn frame_bytes(t: PeerMessageType, payload: Seq<u8>) -> Seq<u8> {
    be32((payload.len() + 1) as u32) + seq![type_id(t)] + payload
}

/// The bytes of the keep-alive frame.
pub open spec fn keep_alive_bytes() -> Seq<u8> {
    be32(0)
}

/// What decoding `b` gives when it succeeds: the frame, as its type and
/// payload (`None` for keep-alive), and how many bytes it took.
pub open spec fn frame_decodes_to(b: Seq<u8>, t: Option<PeerMessageType>, payload: Seq<u8>, used: int) -> bool {
    &&& b.len() >= 4
    &&& used == 4 + be32_value(b.subrange(0, 4))
    &&& used <= b.len()
    &&& match t {
        None => used == 4 && payload.len() == 0,
        Some(t) => used >= 5 && b[4] == type_id(t) && payload == b.subrange(5, used),
    }
}

/// Whether `b` holds at least a length prefix and as many bytes as it declares.
pub open spec fn frame_available(b: Seq<u8>) -> bool {
    b.len() >= 4 && 4 + be32_value(b.subrange(0, 4)) <= b.len()
}

/// Encodes a frame of type `message_type` with `payload`; the prefix is
/// `1 + payload.len()`.
pub fn encode_message(message_type: PeerMessageType, payload: &[u8]) -> (r: bytes::Bytes)
    requires
        payload@.len() < u32::MAX,
        payload@.len() + 5 <= isize::MAX,
    ensures
        bytes_contents(r) == frame_bytes(message_type, payload@),
{
    let mut m = buf_with_capacity(5 + payload.len());
    buf_put_u32(&mut m, (payload.len() + 1) as u32);
    buf_put_u8(&mut m, message_type.id());
    buf_put_slice(&mut m, payload);
    assert(crate::buffer::buf_contents(m) =~= frame_bytes(message_type, payload@));
    buf_freeze(m)
}

/// Encodes the zero-length keep-alive frame.
pub fn encode_keep_alive() -> (r: bytes::Bytes)
    ensures
        bytes_contents(r) == keep_alive_bytes(),
{
    let mut m = buf_with_capacity(4);
    buf_put_u32(&mut m, 0);
    assert(Seq::<u8>::empty() + be32(0) =~= keep_alive_bytes());
    buf_freeze(m)
}

/// Decodes the frame at the start of `b` and says how many bytes it used.
/// Fails with `TruncatedFrame` when `b` is shorter than the prefix says,
/// and with `UnknownMessageType` for a type byte above 8.
pub fn decode_message(b: &[u8]) -> (r: Result<(Frame, usize), WireError>)
    ensures
        match r {
            Ok((Frame::KeepAlive, used)) => frame_decodes_to(b@, None, Seq::empty(), used as int),
            Ok((Frame::Message(m), used)) => frame_decodes_to(b@, Some(m.message_id), bytes_contents(m.payload), used as int)
                && m.message_length_prefix == used - 4,
            Err(WireError::TruncatedFrame) => !frame_available(b@),
            Err(WireError::UnknownMessageType(id)) => frame_available(b@) && be32_value(b@.subrange(0, 4)) > 0
                && id == b@[4] && id > 8,
            Err(WireError::MalformedHandshake) => false,
        },
{
    if b.len() < 4 {
        return Err(WireError::TruncatedFrame);
    }
    let len = read_u32_be(b, 0);
    if len as usize > b.len() - 4 {
        return Err(WireError::TruncatedFrame);
    }
    let used = 4 + len as usize;
    if len == 0 {
        return Ok((Frame::KeepAlive, used));
    }
    let id = b[4];
    if id > 8 {
        return Err(WireError::UnknownMessageType(id));
    }
    let message_id = get_message_type(id);
    let payload = bytes_from_slice(vstd::slice::slice_subrange(b, 5, used));
    Ok((Frame::Message(PeerMessage { message_length_prefix: len, message_id, payload }), used))
}

/// Decoding an encoded frame gives back its type and payload, and uses
/// exactly the encoded bytes, whatever follows them.
pub proof fn lemma_frame_round_trip(t: PeerMessageType, payload: Seq<u8>, rest: Seq<u8>)
    requires
        payload.len() < u32::MAX,
    ensures
        frame_available(frame_bytes(t, payload) + rest),
        frame_decodes_to(
            frame_bytes(t, payload) + rest,
            Some(t),
            payload,
            frame_bytes(t, payload).len() as int,
        ),
{
    let b = frame_bytes(t, payload) + rest;
    let n = (payload.len() + 1) as u32;
    lemma_be32_round_trip(n);
    assert(b.subrange(0, 4) =~= be32(n));
    assert(b.subrange(5, 5 + payload.len() as int) =~= payload);
}

/// The keep-alive frame decodes as keep-alive and uses four bytes.
pub proof fn lemma_keep_alive_round_trip(rest: Seq<u8>)
    ensures
        frame_decodes_to(keep_alive_bytes() + rest, None, Seq::empty(), 4),
{
    lemma_be32_round_trip(0);
    assert((keep_alive_bytes() + rest).subrange(0, 4) =~= be32(0));
}

/// The payload of `request` and `cancel`: piece index, byte offset, length.
pub open spec fn block_fields_bytes(index: u32, begin: u32, length: u32) -> Seq<u8> {
    be32(index) + be32(begin) + be32(length)
}

/// Encodes the payload of a `request` or `cancel` message.
pub fn encode_block_fields(index: u32, begin: u32, length: u32) -> (r: Vec<u8>)
    ensures
        r@ == block_fields_bytes(index, begin, length),
{
    let mut r: Vec<u8> = Vec::new();
    push_u32_be(&mut r, index);
    push_u32_be(&mut r, begin);
    push_u32_be(&mut r, length);
    r
}

/// Encodes the payload of a `have` message.
pub fn encode_have(index: u32) -> (r: Vec<u8>)
    ensures
        r@ == be32(index),
{
    let mut r: Vec<u8> = Vec::new();
    push_u32_be(&mut r, index);
    r
}

/// Reads the piece index of a `have` payload; `None` unless it is four bytes.
pub fn decode_have(payload: &[u8]) -> (r: Option<u32>)
    ensures
        match r {
            Some(i) => payload@.len() == 4 && i == be32_value(payload@),
            None => payload@.len() != 4,
        },
{
    if payload.len() != 4 {
        return None;
    }
    let i = read_u32_be(payload, 0);
    assert(payload@.subrange(0, 4) =~= payload@);
    Some(i)
}

/// The three fields of a `request` or `cancel` payload; `None` unless it is
/// twelve bytes.
pub fn decode_block_fields(payload: &[u8]) -> (r: Option<(u32, u32, u32)>)
    ensures
        match r {
            Some((i, b, l)) => payload@.len() == 12 && i == be32_value(payload@.subrange(0, 4))
                && b == be32_value(payload@.subrange(4, 8)) && l == be32_value(payload@.subrange(8, 12)),
            None => payload@.len() != 12,
        },
{
    if payload.len() != 12 {
        return None;
    }
    Some((read_u32_be(payload, 0), read_u32_be(payload, 4), read_u32_be(payload, 8)))
}

/// A `piece` payload: piece index, byte offset and the block's bytes.
#[derive(Debug, Clone)]
pub struct BlockData {
    pub index: u32,
    pub begin: u32,
    pub data: Vec<u8>,
}

/// Splits a `piece` payload; `None` when it is shorter than eight bytes.
pub fn decode_piece_payload(payload: &[u8]) -> (r: Option<BlockData>)
    ensures
        match r {
            Some(d) => payload@.len() >= 8 && d.index == be32_value(payload@.subrange(0, 4))
                && d.begin == be32_value(payload@.subrange(4, 8)) && d.data@ == payload@.subrange(
                8,
                payload@.len() as int,
            ),
            None => payload@.len() < 8,
        },
{
    if payload.len() < 8 {
        return None;
    }
    Some(
        BlockData {
            index: read_u32_be(payload, 0),
            begin: read_u32_be(payload, 4),
            data: copy_range(payload, 8, payload.len()),
        },
    )
}

/// Whether bit `index` of a bitfield is set, the most significant bit of
/// each byte first; bits past the end are unset.
pub open spec fn bit_set(bitfield: Seq<u8>, index: int) -> bool {
    let byte = index / 8;
    &&& 0 <= byte < bitfield.len()
    &&& (bitfield[byte] as int / pow2_of_bit(7 - index % 8)) % 2 == 1
}

/// Two to the power `k`, for `k` in `0..8`.
pub open spec fn pow2_of_bit(k: int) -> int {
    if k <= 0 { 1 } else if k == 1 { 2 } else if k == 2 { 4 } else if k == 3 { 8 }
    else if k == 4 { 16 } else if k == 5 { 32 } else if k == 6 { 64 } else { 128 }
}

/// Whether a peer's bitfield advertises piece `index`.
pub fn bitfield_has_piece(bitfield: &[u8], index: u32) -> (r: bool)
    ensures
        r == bit_set(bitfield@, index as int),
{
    let byte = (index / 8) as usize;
    if byte >= bitfield.len() {
        return false;
    }
    let shift = 7 - index % 8;
    let divisor: u32 = if shift == 0 { 1 } else if shift == 1 { 2 } else if shift == 2 { 4 }
        else if shift == 3 { 8 } else if shift == 4 { 16 } else if shift == 5 { 32 }
        else if shift == 6 { 64 } else { 128 };
    (bitfield[byte] as u32 / divisor) % 2 == 1
}

} // verus!
