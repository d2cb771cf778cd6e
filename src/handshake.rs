//! The handshake this client sends.

use vstd::prelude::*;
use crate::buffer::bytes_contents;
use crate::codec::{encode_handshake, handshake_bytes};
use crate::digest::sha1_of;
use crate::torrent::{info_bytes, TorrentFile};

verus! {

/// This client's peer id: "00112233445566778899".
pub open spec fn local_peer_id() -> Seq<u8> {
    seq![48u8, 48, 49, 49, 50, 50, 51, 51, 52, 52, 53, 53, 54, 54, 55, 55, 56, 56, 57, 57]
}

/// The bytes of this client's peer id.
pub fn local_peer_id_bytes() -> (r: Vec<u8>)
    ensures
        r@ == local_peer_id(),
{
    let r: Vec<u8> = vec![48u8, 48, 49, 49, 50, 50, 51, 51, 52, 52, 53, 53, 54, 54, 55, 55, 56, 56, 57, 57];
    assert(r@ =~= local_peer_id());
    r
}

/// The handshake for `torrent_file`: its info hash and this client's peer id.
pub fn prepare_handshake_message(torrent_file: &TorrentFile) -> (r: bytes::Bytes)
    ensures
        bytes_contents(r) == handshake_bytes(sha1_of(info_bytes(torrent_file.info)), local_peer_id()),
{
    let info_hash = torrent_file.info.hash_info();
    let peer_id = local_peer_id_bytes();
    encode_handshake(info_hash.as_slice(), peer_id.as_slice())
}

} // verus!
