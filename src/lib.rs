//! A peer wire protocol engine: handshake and frame codec, piece assembly
//! with integrity checks, per-peer session decisions and a download
//! coordinator that spreads pieces over peers and retries on failure.

pub mod assembler;
pub mod bencode;
pub mod buffer;
pub mod bytes_util;
pub mod codec;
pub mod coordinator;
pub mod digest;
pub mod download;
pub mod handshake;
pub mod session;
pub mod torrent;
