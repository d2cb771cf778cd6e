use bittorrent::codec::{
    bitfield_has_piece, decode_block_fields, decode_handshake, decode_have, decode_message,
    decode_piece_payload, encode_block_fields, encode_handshake, encode_have, encode_keep_alive,
    encode_message, get_message_type, Frame, PeerMessageType, WireError,
};

fn hash_of(seed: u8) -> Vec<u8> {
    (0..20).map(|i| seed.wrapping_add(i as u8 * 7)).collect()
}

const ALL_TYPES: [PeerMessageType; 9] = [
    PeerMessageType::Choke,
    PeerMessageType::Unchoke,
    PeerMessageType::Interested,
    PeerMessageType::NotInterested,
    PeerMessageType::Have,
    PeerMessageType::Bitfield,
    PeerMessageType::Request,
    PeerMessageType::Piece,
    PeerMessageType::Cancel,
];

#[test]
fn handshake_layout_is_exact() {
    let h = hash_of(1);
    let p = b"00112233445566778899".to_vec();
    let bytes = encode_handshake(&h, &p);
    assert_eq!(bytes.len(), 68);
    assert_eq!(bytes[0], 19);
    assert_eq!(&bytes[1..20], b"BitTorrent protocol");
    assert_eq!(&bytes[20..28], &[0u8; 8]);
    assert_eq!(&bytes[28..48], &h[..]);
    assert_eq!(&bytes[48..68], &p[..]);
}

#[test]
fn handshake_round_trip() {
    for seed in [0u8, 3, 200, 255] {
        let h = hash_of(seed);
        let p = hash_of(seed.wrapping_add(91));
        let decoded = decode_handshake(&encode_handshake(&h, &p)).unwrap();
        assert_eq!(decoded.info_hash, h);
        assert_eq!(decoded.peer_id, p);
    }
}

#[test]
fn handshake_with_wrong_length_byte_is_malformed() {
    let mut bytes = encode_handshake(&hash_of(1), &hash_of(2)).to_vec();
    bytes[0] = 18;
    assert!(matches!(decode_handshake(&bytes), Err(WireError::MalformedHandshake)));
}

#[test]
fn handshake_with_wrong_name_is_malformed() {
    let mut bytes = encode_handshake(&hash_of(1), &hash_of(2)).to_vec();
    bytes[5] = b'X';
    assert!(matches!(decode_handshake(&bytes), Err(WireError::MalformedHandshake)));
}

#[test]
fn short_handshake_is_malformed() {
    let bytes = encode_handshake(&hash_of(1), &hash_of(2));
    assert!(matches!(decode_handshake(&bytes[..67]), Err(WireError::MalformedHandshake)));
}

#[test]
fn reserved_bits_are_accepted() {
    let mut bytes = encode_handshake(&hash_of(1), &hash_of(2)).to_vec();
    bytes[25] = 0x10;
    assert!(decode_handshake(&bytes).is_ok());
}

#[test]
fn message_type_ids() {
    for (i, t) in ALL_TYPES.iter().enumerate() {
        assert_eq!(get_message_type(i as u8), *t);
        assert_eq!(t.id(), i as u8);
        assert_eq!(t.has_payload(), i >= 4);
    }
}

#[test]
fn encode_interested_is_exact() {
    assert_eq!(encode_message(PeerMessageType::Interested, &[]), vec![0, 0, 0, 1, 2]);
}

#[test]
fn encode_request_is_exact() {
    let payload = encode_block_fields(1, 16384, 16384);
    assert_eq!(payload, vec![0, 0, 0, 1, 0, 0, 0x40, 0, 0, 0, 0x40, 0]);
    let frame = encode_message(PeerMessageType::Request, &payload);
    assert_eq!(&frame[..5], &[0, 0, 0, 13, 6]);
}

#[test]
fn large_prefix_is_big_endian() {
    let payload = vec![7u8; 0x01_02_03];
    let frame = encode_message(PeerMessageType::Bitfield, &payload);
    assert_eq!(&frame[..5], &[0, 0x01, 0x02, 0x04, 5]);
}

#[test]
fn frame_round_trip_every_type() {
    for t in ALL_TYPES {
        let payloads: Vec<Vec<u8>> = match t {
            PeerMessageType::Have => vec![encode_have(77)],
            PeerMessageType::Request | PeerMessageType::Cancel => {
                vec![encode_block_fields(3, 0, 16384)]
            }
            PeerMessageType::Piece => vec![vec![0, 0, 0, 1, 0, 0, 0, 0], {
                let mut p = vec![0, 0, 0, 2, 0, 0, 0x40, 0];
                p.extend_from_slice(&[9u8; 300]);
                p
            }],
            PeerMessageType::Bitfield => vec![vec![], vec![0xff], vec![0x80, 0x01, 0x00]],
            _ => vec![vec![]],
        };
        for payload in payloads {
            let mut bytes = encode_message(t, &payload).to_vec();
            let len = bytes.len();
            bytes.extend_from_slice(&[1, 2, 3]);
            match decode_message(&bytes).unwrap() {
                (Frame::Message(m), used) => {
                    assert_eq!(used, len);
                    assert_eq!(m.message_id, t);
                    assert_eq!(m.payload, payload);
                    assert_eq!(m.message_length_prefix as usize, payload.len() + 1);
                }
                (Frame::KeepAlive, _) => panic!("decoded as keep-alive"),
            }
        }
    }
}

#[test]
fn keep_alive_round_trip() {
    let bytes = encode_keep_alive();
    assert_eq!(bytes, vec![0, 0, 0, 0]);
    assert!(matches!(decode_message(&bytes), Ok((Frame::KeepAlive, 4))));
}

#[test]
fn truncated_frames() {
    assert!(matches!(decode_message(&[0, 0]), Err(WireError::TruncatedFrame)));
    assert!(matches!(decode_message(&[]), Err(WireError::TruncatedFrame)));
    let bytes = encode_message(PeerMessageType::Have, &encode_have(5));
    assert!(matches!(decode_message(&bytes[..8]), Err(WireError::TruncatedFrame)));
}

#[test]
fn unknown_message_type() {
    assert!(matches!(decode_message(&[0, 0, 0, 1, 20]), Err(WireError::UnknownMessageType(20))));
}

#[test]
fn payload_fields() {
    assert_eq!(decode_have(&encode_have(0x01020304)), Some(0x01020304));
    assert_eq!(decode_have(&[1, 2, 3]), None);
    assert_eq!(decode_block_fields(&encode_block_fields(7, 32768, 100)), Some((7, 32768, 100)));
    let mut p = vec![0, 0, 0, 4, 0, 0, 0, 8];
    p.extend_from_slice(b"data");
    let d = decode_piece_payload(&p).unwrap();
    assert_eq!((d.index, d.begin, d.data.clone()), (4, 8, b"data".to_vec()));
    assert!(decode_piece_payload(&[0, 0, 0]).is_none());
}

#[test]
fn bitfield_bits_are_msb_first() {
    let bf = [0b1000_0001u8, 0b0100_0000];
    assert!(bitfield_has_piece(&bf, 0));
    assert!(!bitfield_has_piece(&bf, 1));
    assert!(bitfield_has_piece(&bf, 7));
    assert!(bitfield_has_piece(&bf, 9));
    assert!(!bitfield_has_piece(&bf, 8));
    assert!(!bitfield_has_piece(&bf, 16));
}
