use bittorrent::codec::{
    decode_block_fields, decode_message, decode_piece_payload, encode_block_fields,
    encode_handshake, encode_have, encode_message, Frame, PeerMessage, PeerMessageType,
};
use bittorrent::coordinator::{Coordinator, DownloadOutcome};
use bittorrent::session::{
    block_requests, check_handshake, BlockOutcome, BlockRequest, PeerSession, PieceDownload,
    SessionAction, SessionError, SessionState, BLOCK_SIZE,
};
use bytes::Bytes;
use sha1::{Digest, Sha1};

fn message(t: PeerMessageType, payload: Vec<u8>) -> Frame {
    Frame::Message(PeerMessage {
        message_length_prefix: payload.len() as u32 + 1,
        message_id: t,
        payload: Bytes::from(payload),
    })
}

#[test]
fn blocks_of_a_piece() {
    let b = block_requests(2, 40000);
    assert_eq!(
        b,
        vec![
            BlockRequest { index: 2, begin: 0, length: 16384 },
            BlockRequest { index: 2, begin: 16384, length: 16384 },
            BlockRequest { index: 2, begin: 32768, length: 7232 },
        ]
    );
    assert_eq!(block_requests(0, 2 * BLOCK_SIZE).len(), 2);
    assert!(block_requests(0, 0).is_empty());
}

#[test]
fn handshake_check() {
    let h = vec![5u8; 20];
    let resp = encode_handshake(&h, &[1u8; 20]);
    assert_eq!(check_handshake(&resp, &h).unwrap().peer_id, vec![1u8; 20]);
    assert_eq!(check_handshake(&resp, &[6u8; 20]).unwrap_err(), SessionError::HandshakeFailed);
    assert_eq!(check_handshake(&resp[..10], &h).unwrap_err(), SessionError::HandshakeFailed);
}

#[test]
fn session_state_machine() {
    let h = vec![5u8; 20];
    let mut s = PeerSession::new();
    assert_eq!(s.state(), SessionState::Handshaking);
    s.on_handshake(&encode_handshake(&h, &[1u8; 20]), &h).unwrap();
    assert_eq!(s.state(), SessionState::AwaitingBitfield);
    // A premature unchoke is ignored.
    assert_eq!(s.on_message(&message(PeerMessageType::Unchoke, vec![])), SessionAction::Nothing);
    assert_eq!(s.state(), SessionState::AwaitingBitfield);
    assert_eq!(s.on_message(&message(PeerMessageType::Bitfield, vec![0b0100_0000])), SessionAction::SendInterested);
    assert!(s.has_piece(1));
    assert!(!s.has_piece(0));
    assert_eq!(s.on_message(&Frame::KeepAlive), SessionAction::Nothing);
    assert_eq!(s.on_message(&message(PeerMessageType::Have, encode_have(12))), SessionAction::Nothing);
    assert!(s.has_piece(12));
    assert_eq!(s.on_message(&message(PeerMessageType::Unchoke, vec![])), SessionAction::SendRequests);
    assert_eq!(s.state(), SessionState::Unchoked);
    assert_eq!(s.on_message(&message(PeerMessageType::Piece, vec![0; 9])), SessionAction::StoreBlock);
    assert_eq!(s.on_message(&message(PeerMessageType::Choke, vec![])), SessionAction::CancelRequests);
    assert_eq!(s.state(), SessionState::Interested);
    s.close();
    assert_eq!(s.state(), SessionState::Closed);
}

#[test]
fn have_before_bitfield_counts() {
    let h = vec![5u8; 20];
    let mut s = PeerSession::new();
    s.on_handshake(&encode_handshake(&h, &[1u8; 20]), &h).unwrap();
    assert_eq!(s.on_message(&message(PeerMessageType::Have, encode_have(3))), SessionAction::SendInterested);
    assert_eq!(s.state(), SessionState::Interested);
}

#[test]
fn wrong_info_hash_closes_session() {
    let mut s = PeerSession::new();
    let r = s.on_handshake(&encode_handshake(&[1u8; 20], &[1u8; 20]), &[2u8; 20]);
    assert_eq!(r.unwrap_err(), SessionError::HandshakeFailed);
    assert_eq!(s.state(), SessionState::Closed);
}

#[test]
fn piece_download_with_choke() {
    let data: Vec<u8> = (0..(2 * BLOCK_SIZE + 10)).map(|i| (i % 251) as u8).collect();
    let hash = Sha1::digest(&data).to_vec();
    let mut d = PieceDownload::new(4, data.len() as u32);
    let first = d.next_requests();
    assert_eq!(first.len(), 3);
    assert_eq!(d.in_flight(), 3);
    assert!(d.next_requests().is_empty());
    // Answer the last block, then get choked.
    let last = first[2];
    let slice = &data[last.begin as usize..(last.begin + last.length) as usize];
    assert_eq!(d.on_block(4, last.begin, slice), Ok(BlockOutcome::Accepted));
    d.on_choke();
    assert_eq!(d.in_flight(), 0);
    // A late block for a cancelled request is dropped.
    assert_eq!(d.on_block(4, 0, &data[..BLOCK_SIZE as usize]), Ok(BlockOutcome::Ignored));
    let again = d.next_requests();
    assert_eq!(again, vec![first[0], first[1]]);
    assert_eq!(d.on_block(4, 0, &data[..5]), Err(SessionError::BadBlock));
    assert_eq!(d.on_block(9, 0, &data[..BLOCK_SIZE as usize]), Ok(BlockOutcome::Ignored));
    for r in again {
        let s = &data[r.begin as usize..(r.begin + r.length) as usize];
        assert_eq!(d.on_block(r.index, r.begin, s), Ok(BlockOutcome::Accepted));
    }
    assert!(d.is_complete());
    assert_eq!(d.finish(&hash), Ok(data));
}

#[test]
fn piece_download_hash_mismatch() {
    let mut d = PieceDownload::new(0, 3);
    let r = d.next_requests();
    d.on_block(0, r[0].begin, b"xyz").unwrap();
    assert_eq!(d.finish(&[0u8; 20]), Err(SessionError::HashMismatch));
}

/// A peer that serves `content` correctly.
struct MockPeer {
    info_hash: Vec<u8>,
    content: Vec<u8>,
    piece_length: usize,
}

impl MockPeer {
    fn handshake(&self) -> Bytes {
        encode_handshake(&self.info_hash, b"-MOCK-00000000000000")
    }

    fn respond(&self, frame: &[u8]) -> Vec<Bytes> {
        match decode_message(frame).unwrap().0 {
            Frame::Message(m) if m.message_id == PeerMessageType::Interested => {
                vec![encode_message(PeerMessageType::Unchoke, &[])]
            }
            Frame::Message(m) if m.message_id == PeerMessageType::Request => {
                let (index, begin, length) = decode_block_fields(&m.payload).unwrap();
                let start = index as usize * self.piece_length + begin as usize;
                let mut payload = m.payload[..8].to_vec();
                payload.extend_from_slice(&self.content[start..start + length as usize]);
                vec![encode_message(PeerMessageType::Piece, &payload)]
            }
            _ => vec![],
        }
    }
}

fn fetch_piece(peer: &MockPeer, index: u32, size: u32, hash: &[u8]) -> Result<Vec<u8>, SessionError> {
    let mut session = PeerSession::new();
    session.on_handshake(&peer.handshake(), &peer.info_hash)?;
    let mut inbox = vec![encode_message(PeerMessageType::Bitfield, &[0b1110_0000])];
    let mut download = PieceDownload::new(index, size);
    while let Some(bytes) = inbox.pop() {
        let (frame, _) = decode_message(&bytes).unwrap();
        let outgoing = match session.on_message(&frame) {
            SessionAction::SendInterested => vec![encode_message(PeerMessageType::Interested, &[])],
            SessionAction::SendRequests => download
                .next_requests()
                .iter()
                .map(|r| encode_message(PeerMessageType::Request, &encode_block_fields(r.index, r.begin, r.length)))
                .collect(),
            SessionAction::StoreBlock => {
                if let Frame::Message(m) = &frame {
                    let b = decode_piece_payload(&m.payload).unwrap();
                    download.on_block(b.index, b.begin, &b.data)?;
                }
                download
                    .next_requests()
                    .iter()
                    .map(|r| encode_message(PeerMessageType::Request, &encode_block_fields(r.index, r.begin, r.length)))
                    .collect()
            }
            _ => vec![],
        };
        for f in outgoing {
            inbox.extend(peer.respond(&f));
        }
        if download.is_complete() {
            break;
        }
    }
    download.finish(hash)
}

#[test]
fn end_to_end_three_pieces() {
    let content = b"0123456789".to_vec();
    let piece_length = 4usize;
    let sizes = [4u32, 4, 2];
    let hashes: Vec<Vec<u8>> = content.chunks(piece_length).map(|c| Sha1::digest(c).to_vec()).collect();
    let peer = MockPeer { info_hash: vec![7u8; 20], content: content.clone(), piece_length };
    let mut coordinator = Coordinator::new(3, 1, 2);
    while let Some(a) = coordinator.next_assignment() {
        let i = a.piece_index;
        match fetch_piece(&peer, i as u32, sizes[i], &hashes[i]) {
            Ok(bytes) => assert!(coordinator.record_success(i, bytes)),
            Err(_) => assert!(coordinator.record_failure(i)),
        }
    }
    let mut assembled = Vec::new();
    for o in coordinator.into_outcomes() {
        match o {
            DownloadOutcome::Verified(b) => assembled.extend(b),
            other => panic!("piece not verified: {:?}", other),
        }
    }
    assert_eq!(assembled, content);
}
