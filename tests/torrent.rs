use bittorrent::bencode::{_decode_string, decode_integer, item_starts_at, value_end_at};
use bittorrent::download::Download;
use bittorrent::handshake::prepare_handshake_message;
use bittorrent::torrent::{parse_torrent_file, TorrentError, TorrentFileInfo};
use sha1::{Digest, Sha1};

fn pieces() -> Vec<u8> {
    (0..60u8).collect()
}

fn torrent_bytes(name: &[u8], extra_info: &[u8]) -> Vec<u8> {
    let mut b = b"d8:announce15:http://tracker/7:comment3:hey4:infod".to_vec();
    b.extend_from_slice(extra_info);
    b.extend_from_slice(b"6:lengthi10e4:name");
    b.extend_from_slice(format!("{}:", name.len()).as_bytes());
    b.extend_from_slice(name);
    b.extend_from_slice(b"12:piece lengthi4e6:pieces60:");
    b.extend_from_slice(&pieces());
    b.extend_from_slice(b"ee");
    b
}

#[test]
fn parses_fields() {
    let t = parse_torrent_file(&torrent_bytes(b"a.txt", b"5:filesli1eli2eee")).unwrap();
    assert_eq!(t.announce, "http://tracker/");
    assert_eq!(t.info.name, "a.txt");
    assert_eq!(t.info.length, 10);
    assert_eq!(t.info.piece_length, 4);
    assert_eq!(t.info.pieces, pieces());
}

#[test]
fn missing_field() {
    let b = b"d8:announce3:abc4:infod6:lengthi3eee".to_vec();
    assert_eq!(parse_torrent_file(&b).unwrap_err(), TorrentError::MissingField);
    let c = b"d4:infod6:lengthi3eee".to_vec();
    assert_eq!(parse_torrent_file(&c).unwrap_err(), TorrentError::MissingField);
}

#[test]
fn malformed_input() {
    assert_eq!(parse_torrent_file(b"").unwrap_err(), TorrentError::Malformed);
    assert_eq!(parse_torrent_file(b"li1ee").unwrap_err(), TorrentError::Malformed);
    assert_eq!(parse_torrent_file(b"d8:announce").unwrap_err(), TorrentError::Malformed);
}

#[test]
fn negative_length_is_bad_integer() {
    let b = b"d8:announce1:a4:infod6:lengthi-3e4:name1:n12:piece lengthi4e6:pieces0:ee".to_vec();
    assert_eq!(parse_torrent_file(&b).unwrap_err(), TorrentError::BadInteger);
    let big = b"d8:announce1:a4:infod6:lengthi99999999999999999999e4:name1:n12:piece lengthi4e6:pieces0:ee".to_vec();
    assert_eq!(parse_torrent_file(&big).unwrap_err(), TorrentError::BadInteger);
}

#[test]
fn invalid_utf8_name() {
    let b = torrent_bytes(&[0xff, 0xfe], b"");
    assert_eq!(parse_torrent_file(&b).unwrap_err(), TorrentError::NotUtf8);
}

fn sample_info() -> TorrentFileInfo {
    TorrentFileInfo { name: "a.txt".to_string(), piece_length: 4, pieces: pieces(), length: 10 }
}

#[test]
fn info_encoding_is_sorted_bencode() {
    let mut want = b"d6:lengthi10e4:name5:a.txt12:piece lengthi4e6:pieces60:".to_vec();
    want.extend_from_slice(&pieces());
    want.push(b'e');
    assert_eq!(sample_info().encode(), want);
}

#[test]
fn info_hash_and_hex_forms() {
    let info = sample_info();
    let want: Vec<u8> = Sha1::digest(info.encode()).to_vec();
    let h = info.hash_info();
    assert_eq!(h, want);
    assert_eq!(info.hex_info(), hex::encode(&want));
    let url: String = want.iter().map(|b| format!("%{:02x}", b)).collect();
    assert_eq!(info.url_encoded_hash_info(), url);
}

#[test]
fn hex_pieces_by_twenty() {
    let mut info = sample_info();
    let hp = info.hex_pieces();
    assert_eq!(hp.len(), 3);
    assert_eq!(hp[0], "000102030405060708090a0b0c0d0e0f10111213");
    info.pieces = vec![0xab; 25];
    let hp = info.hex_pieces();
    assert_eq!(hp.len(), 2);
    assert_eq!(hp[1], "ababababab");
}

#[test]
fn handshake_for_torrent() {
    let t = parse_torrent_file(&torrent_bytes(b"a.txt", b"")).unwrap();
    let m = prepare_handshake_message(&t);
    assert_eq!(m.len(), 68);
    assert_eq!(&m[28..48], &t.info.hash_info()[..]);
    assert_eq!(&m[48..], b"00112233445566778899");
}

#[test]
fn bencode_string_and_values() {
    assert_eq!(_decode_string(b"5:hello!", 0), Some((7, b"hello".to_vec())));
    assert_eq!(_decode_string(b"9:hello", 0), None);
    assert_eq!(_decode_string(b"x:", 0), None);
    assert_eq!(value_end_at(b"li1ei-20e3:abcd1:aleee!", 0), Some(22));
    assert_eq!(value_end_at(b"i-e", 0), None);
    assert_eq!(value_end_at(b"l", 0), None);
}

#[test]
fn download_geometry() {
    let d = Download::new(&sample_info()).unwrap();
    assert_eq!(d.piece_count(), 3);
    assert_eq!((d.piece_size(0), d.piece_size(1), d.piece_size(2)), (4, 4, 2));
    assert_eq!(d.piece_hash(2), (40..60u8).collect::<Vec<u8>>());
    let mut bad = sample_info();
    bad.pieces.pop();
    assert!(Download::new(&bad).is_none());
    bad.piece_length = 0;
    assert!(Download::new(&bad).is_none());
}

#[test]
fn bencode_integers() {
    assert_eq!(decode_integer(b"i42e", 0), Some((4, 42)));
    assert_eq!(decode_integer(b"xi-7e", 1), Some((5, -7)));
    assert_eq!(decode_integer(b"i-9223372036854775808e", 0), Some((22, i64::MIN)));
    assert_eq!(decode_integer(b"i9223372036854775808e", 0), None);
    assert_eq!(decode_integer(b"ie", 0), None);
    assert_eq!(decode_integer(b"i12", 0), None);
}

#[test]
fn bencode_item_positions() {
    let s = b"li1e3:abcli2eee";
    assert_eq!(item_starts_at(s, 1, false), Some(vec![1, 4, 9]));
    let d = b"d1:ai1e2:bbi2ee";
    assert_eq!(item_starts_at(d, 1, true), Some(vec![1, 7]));
    assert_eq!(item_starts_at(b"li1e", 1, false), None);
    assert_eq!(item_starts_at(b"le", 1, false), Some(vec![]));
}
