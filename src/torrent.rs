//! The torrent descriptor: reading its fields out of bencoded bytes, the
//! info hash, and the hex forms of its hashes.

use vstd::prelude::*;
use vstd::utf8::{decode_utf8, encode_utf8, valid_utf8};
use crate::bencode::{
    _decode_string, as_pos, digits_end, digits_value, encoded_int, encoded_string, entry_value,
    entry_value_at, int_digits_start, int_end, is_digit, push_int, push_string, read_number,
    string_content, string_end, value_end, value_end_at,
};
use crate::bytes_util::copy_range;
use crate::digest::{sha1_digest, sha1_of};

verus! {

/// Why a descriptor could not be read.
#[derive(Debug, Clone, Copy, PartialEq, Eq, Structural)]
pub enum TorrentError {
    /// The bytes do not start with a well-formed bencoded dictionary.
    Malformed,
    /// A required key is absent or holds a value of the wrong kind.
    MissingField,
    /// `length` or `piece length` is negative or above `u64::MAX`.
    BadInteger,
    /// `announce` or `name` is not UTF-8.
    NotUtf8,
}

/// The `info` dictionary.
#[derive(Debug, Clone)]
pub struct TorrentFileInfo {
    pub name: String,
    pub piece_length: u64,
    pub pieces: Vec<u8>,
    pub length: u64,
}

/// A parsed descriptor.
#[derive(Debug, Clone)]
pub struct TorrentFile {
    pub announce: String,
    pub info: TorrentFileInfo,
}

/// A descriptor as mathematics.
pub struct TorrentModel {
    pub announce: Seq<char>,
    pub name: Seq<char>,
    pub piece_length: nat,
    pub pieces: Seq<u8>,
    pub length: nat,
}

impl TorrentFile {
    pub open spec fn model(&self) -> TorrentModel {
        TorrentModel {
            announce: self.announce@,
            name: self.info.name@,
            piece_length: self.info.piece_length as nat,
            pieces: self.info.pieces@,
            length: self.info.length as nat,
        }
    }
}

pub open spec fn key_announce() -> Seq<u8> {
    seq![97u8, 110, 110, 111, 117, 110, 99, 101]
}

pub open spec fn key_info() -> Seq<u8> {
    seq![105u8, 110, 102, 111]
}

pub open spec fn key_length() -> Seq<u8> {
    seq![108u8, 101, 110, 103, 116, 104]
}

pub open spec fn key_name() -> Seq<u8> {
    seq![110u8, 97, 109, 101]
}

pub open spec fn key_piece_length() -> Seq<u8> {
    seq![112u8, 105, 101, 99, 101, 32, 108, 101, 110, 103, 116, 104]
}

pub open spec fn key_pieces() -> Seq<u8> {
    seq![112u8, 105, 101, 99, 101, 115]
}

fn key_bytes(k: u8) -> (r: Vec<u8>)
    requires
        k < 6,
    ensures
        k == 0 ==> r@ == key_announce(),
        k == 1 ==> r@ == key_info(),
        k == 2 ==> r@ == key_length(),
        k == 3 ==> r@ == key_name(),
        k == 4 ==> r@ == key_piece_length(),
        k == 5 ==> r@ == key_pieces(),
{
    let r: Vec<u8> = if k == 0 {
        vec![97u8, 110, 110, 111, 117, 110, 99, 101]
    } else if k == 1 {
        vec![105u8, 110, 102, 111]
    } else if k == 2 {
        vec![108u8, 101, 110, 103, 116, 104]
    } else if k == 3 {
        vec![110u8, 97, 109, 101]
    } else if k == 4 {
        vec![112u8, 105, 101, 99, 101, 32, 108, 101, 110, 103, 116, 104]
    } else {
        vec![112u8, 105, 101, 99, 101, 115]
    };
    assert(k == 0 ==> r@ =~= key_announce());
    assert(k == 1 ==> r@ =~= key_info());
    assert(k == 2 ==> r@ =~= key_length());
    assert(k == 3 ==> r@ =~= key_name());
    assert(k == 4 ==> r@ =~= key_piece_length());
    assert(k == 5 ==> r@ =~= key_pieces());
    r
}

/// The bytes of the byte string under `key` in the dictionary at `d`.
pub open spec fn string_field(s: Seq<u8>, d: int, key: Seq<u8>) -> Option<Seq<u8>> {
    match entry_value(s, d + 1, key) {
        Some(v) => if string_end(s, v) is Some { Some(string_content(s, v)) } else { None },
        None => None,
    }
}

/// The integer under `key` in the dictionary at `d`: whether it has a minus
/// sign, and its magnitude.
pub open spec fn int_field(s: Seq<u8>, d: int, key: Seq<u8>) -> Option<(bool, nat)> {
    match entry_value(s, d + 1, key) {
        Some(v) => if int_end(s, v) is Some {
            let p = int_digits_start(s, v);
            Some((p == v + 2, digits_value(s, p, digits_end(s, p))))
        } else {
            None
        },
        None => None,
    }
}

/// Where the dictionary under `key` in the dictionary at `d` starts.
pub open spec fn dict_field(s: Seq<u8>, d: int, key: Seq<u8>) -> Option<int> {
    match entry_value(s, d + 1, key) {
        Some(v) => if 0 <= v < s.len() && s[v] == 100 { Some(v) } else { None },
        None => None,
    }
}

/// A usable non-negative integer field.
pub open spec fn good_int(f: (bool, nat)) -> bool {
    !f.0 && f.1 <= u64::MAX
}

/// What reading the descriptor `s` gives.
pub open spec fn torrent_of(s: Seq<u8>) -> Result<TorrentModel, TorrentError> {
    if !(s.len() > 0 && s[0] == 100 && value_end(s, 0) is Some) {
        Err(TorrentError::Malformed)
    } else if string_field(s, 0, key_announce()) is None || dict_field(s, 0, key_info()) is None {
        Err(TorrentError::MissingField)
    } else {
        let d = dict_field(s, 0, key_info())->Some_0;
        let length = int_field(s, d, key_length());
        let name = string_field(s, d, key_name());
        let piece_length = int_field(s, d, key_piece_length());
        let pieces = string_field(s, d, key_pieces());
        let announce = string_field(s, 0, key_announce())->Some_0;
        if length is None || name is None || piece_length is None || pieces is None {
            Err(TorrentError::MissingField)
        } else if !good_int(length->Some_0) || !good_int(piece_length->Some_0) {
            Err(TorrentError::BadInteger)
        } else if !valid_utf8(announce) || !valid_utf8(name->Some_0) {
            Err(TorrentError::NotUtf8)
        } else {
            Ok(
                TorrentModel {
                    announce: decode_utf8(announce),
                    name: decode_utf8(name->Some_0),
                    piece_length: piece_length->Some_0.1,
                    pieces: pieces->Some_0,
                    length: length->Some_0.1,
                },
            )
        }
    }
}

/// Relies on `std::str::from_utf8`: the text that `b` encodes when it is
/// valid UTF-8, and nothing otherwise.
#[verifier::external_body]
fn utf8_text(b: &[u8]) -> (r: Option<String>)
    ensures
        match r {
            Some(t) => valid_utf8(b@) && t@ == decode_utf8(b@),
            None => !valid_utf8(b@),
        },
{
    std::str::from_utf8(b).ok().map(|t| t.to_string())
}

fn string_field_at(s: &[u8], d: usize, key: &[u8]) -> (r: Option<Vec<u8>>)
    requires
        d < s@.len(),
    ensures
        match r {
            Some(b) => string_field(s@, d as int, key@) == Some(b@),
            None => string_field(s@, d as int, key@) is None,
        },
{
    let n: usize = s.len();
    assert(d < n);
    match entry_value_at(s, d + 1, key) {
        None => None,
        Some(v) => match _decode_string(s, v) {
            None => None,
            Some((_, b)) => Some(b),
        },
    }
}

fn dict_field_at(s: &[u8], d: usize, key: &[u8]) -> (r: Option<usize>)
    requires
        d < s@.len(),
    ensures
        as_pos(r) == dict_field(s@, d as int, key@),
        r is Some ==> r->Some_0 < s@.len(),
{
    let n: usize = s.len();
    assert(d < n);
    match entry_value_at(s, d + 1, key) {
        None => None,
        Some(v) => if v < s.len() && s[v] == 100 { Some(v) } else { None },
    }
}

/// The integer field under `key`: `Some(None)` when it is there but not a
/// usable `u64`.
fn int_field_at(s: &[u8], d: usize, key: &[u8]) -> (r: Option<Option<u64>>)
    requires
        d < s@.len(),
    ensures
        match r {
            None => int_field(s@, d as int, key@) is None,
            Some(None) => int_field(s@, d as int, key@) is Some && !good_int(
                int_field(s@, d as int, key@)->Some_0,
            ),
            Some(Some(n)) => int_field(s@, d as int, key@) is Some && good_int(
                int_field(s@, d as int, key@)->Some_0,
            ) && int_field(s@, d as int, key@)->Some_0.1 == n,
        },
{
    let n: usize = s.len();
    assert(d < n);
    match entry_value_at(s, d + 1, key) {
        None => None,
        Some(v) => {
            if v >= s.len() || s[v] != 105 {
                return None;
            }
            let negative = v + 1 < s.len() && s[v + 1] == 45;
            let p = if negative { v + 2 } else { v + 1 };
            let mut e: usize = p;
            while e < s.len() && s[e] >= 48 && s[e] <= 57
                invariant
                    p <= e <= s@.len(),
                    digits_end(s@, e as int) == digits_end(s@, p as int),
                    forall|j: int| p <= j < e ==> is_digit(#[trigger] s@[j]),
                decreases s@.len() - e,
            {
                e = e + 1;
            }
            if !(e > p && e < s.len() && s[e] == 101) {
                return None;
            }
            if negative {
                return Some(None);
            }
            Some(read_u64_digits(s, p, e))
        },
    }
}

fn read_u64_digits(s: &[u8], lo: usize, hi: usize) -> (r: Option<u64>)
    requires
        lo <= hi <= s@.len(),
        forall|j: int| lo <= j < hi ==> is_digit(#[trigger] s@[j]),
    ensures
        match r {
            Some(v) => v == digits_value(s@, lo as int, hi as int),
            None => digits_value(s@, lo as int, hi as int) > u64::MAX,
        },
{
    read_number(s, lo, hi, u64::MAX)
}

/// Reads a descriptor out of its bencoded bytes: the top-level `announce`
/// string and, in `info`, `length`, `name`, `piece length` and `pieces`.
/// Keys beyond these are skipped; for a repeated key the first entry counts.
pub fn parse_torrent_file(contents: &[u8]) -> (r: Result<TorrentFile, TorrentError>)
    ensures
        match r {
            Ok(t) => torrent_of(contents@) == Ok::<TorrentModel, TorrentError>(t.model()),
            Err(e) => torrent_of(contents@) == Err::<TorrentModel, TorrentError>(e),
        },
{
    let s = contents;
    if s.len() == 0 || s[0] != 100 {
        return Err(TorrentError::Malformed);
    }
    if value_end_at(s, 0).is_none() {
        return Err(TorrentError::Malformed);
    }
    let k_announce = key_bytes(0);
    let k_info = key_bytes(1);
    let announce = string_field_at(s, 0, k_announce.as_slice());
    let d = dict_field_at(s, 0, k_info.as_slice());
    if announce.is_none() || d.is_none() {
        return Err(TorrentError::MissingField);
    }
    let announce = announce.unwrap();
    let d = d.unwrap();
    let length = int_field_at(s, d, key_bytes(2).as_slice());
    let name = string_field_at(s, d, key_bytes(3).as_slice());
    let piece_length = int_field_at(s, d, key_bytes(4).as_slice());
    let pieces = string_field_at(s, d, key_bytes(5).as_slice());
    if length.is_none() || name.is_none() || piece_length.is_none() || pieces.is_none() {
        return Err(TorrentError::MissingField);
    }
    let length = length.unwrap();
    let piece_length = piece_length.unwrap();
    if length.is_none() || piece_length.is_none() {
        return Err(TorrentError::BadInteger);
    }
    let announce_text = utf8_text(announce.as_slice());
    let name = name.unwrap();
    let name_text = utf8_text(name.as_slice());
    if announce_text.is_none() || name_text.is_none() {
        return Err(TorrentError::NotUtf8);
    }
    let t = TorrentFile {
        announce: announce_text.unwrap(),
        info: TorrentFileInfo {
            name: name_text.unwrap(),
            piece_length: piece_length.unwrap(),
            pieces: pieces.unwrap(),
            length: length.unwrap(),
        },
    };
    Ok(t)
}

/// The lowercase hex digit of `n`, for `n` in `0..16`.
pub open spec fn hex_char(n: int) -> char {
    seq!['0', '1', '2', '3', '4', '5', '6', '7', '8', '9', 'a', 'b', 'c', 'd', 'e', 'f'][n]
}

/// Two lowercase hex digits per byte, high nibble first.
pub open spec fn hex_text(b: Seq<u8>) -> Seq<char> {
    Seq::new(
        2 * b.len(),
        |i: int| if i % 2 == 0 { hex_char(b[i / 2] as int / 16) } else { hex_char(b[i / 2] as int % 16) },
    )
}

/// Each byte as `%` and its two hex digits.
pub open spec fn url_escaped(b: Seq<u8>) -> Seq<char>
    decreases b.len(),
{
    if b.len() == 0 {
        Seq::empty()
    } else {
        url_escaped(b.drop_last()) + seq!['%'] + hex_text(seq![b.last()])
    }
}

/// Relies on `hex::encode`: two lowercase hex digits per byte, high nibble
/// first.
#[verifier::external_body]
fn hex_encode(b: &[u8]) -> (r: String)
    ensures
        r@ == hex_text(b@),
{
    hex::encode(b)
}

/// Relies on `String::push_str`: appends `t`.
#[verifier::external_body]
fn push_text(s: &mut String, t: &str)
    ensures
        final(s)@ == old(s)@ + t@,
{
    s.push_str(t)
}

/// The bencoded `info` dictionary: its four keys in sorted order.
pub open spec fn info_bytes(info: TorrentFileInfo) -> Seq<u8> {
    seq![100u8] + encoded_string(key_length()) + encoded_int(info.length as nat) + encoded_string(
        key_name(),
    ) + encoded_string(encode_utf8(info.name@)) + encoded_string(key_piece_length())
        + encoded_int(info.piece_length as nat) + encoded_string(key_pieces()) + encoded_string(
        info.pieces@,
    ) + seq![101u8]
}

/// The 20-byte hash of piece `i`; the last one is shorter when the
/// concatenation is not a multiple of 20 bytes.
pub open spec fn piece_hash_chunk(pieces: Seq<u8>, i: int) -> Seq<u8> {
    pieces.subrange(20 * i, if 20 * i + 20 <= pieces.len() { 20 * i + 20 } else { pieces.len() as int })
}

/// How many 20-byte chunks `len` bytes make, the last one possibly short.
pub open spec fn chunk_count(len: nat) -> nat {
    (len + 19) / 20
}

impl TorrentFileInfo {
    /// The bencoded `info` dictionary.
    pub fn encode(&self) -> (r: Vec<u8>)
        ensures
            r@ == info_bytes(*self),
    {
        let mut r: Vec<u8> = Vec::new();
        r.push(100u8);
        push_string(&mut r, key_bytes(2).as_slice());
        push_int(&mut r, self.length);
        push_string(&mut r, key_bytes(3).as_slice());
        push_string(&mut r, self.name.as_str().as_bytes());
        push_string(&mut r, key_bytes(4).as_slice());
        push_int(&mut r, self.piece_length);
        push_string(&mut r, key_bytes(5).as_slice());
        push_string(&mut r, self.pieces.as_slice());
        r.push(101u8);
        r
    }

    /// The info hash: the SHA-1 digest of the bencoded `info` dictionary.
    pub fn hash_info(&self) -> (r: Vec<u8>)
        ensures
            r@ == sha1_of(info_bytes(*self)),
            r@.len() == 20,
    {
        let encoded = self.encode();
        sha1_digest(encoded.as_slice())
    }

    /// The info hash in lowercase hex.
    pub fn hex_info(&self) -> (r: String)
        ensures
            r@ == hex_text(sha1_of(info_bytes(*self))),
    {
        let h = self.hash_info();
        hex_encode(h.as_slice())
    }

    /// The info hash with each byte written `%xx`, as a tracker URL wants it.
    pub fn url_encoded_hash_info(&self) -> (r: String)
        ensures
            r@ == url_escaped(sha1_of(info_bytes(*self))),
    {
        let h = self.hash_info();
        let mut out = String::new();
        let mut i: usize = 0;
        while i < h.len()
            invariant
                i <= h@.len(),
                out@ == url_escaped(h@.subrange(0, i as int)),
            decreases h@.len() - i,
        {
            let one = copy_range(h.as_slice(), i, i + 1);
            let digits = hex_encode(one.as_slice());
            proof {
                reveal_strlit("%");
            }
            push_text(&mut out, "%");
            push_text(&mut out, digits.as_str());
            proof {
                let next = h@.subrange(0, i + 1);
                assert(next.drop_last() =~= h@.subrange(0, i as int));
                assert(one@ =~= seq![next.last()]);
            }
            i = i + 1;
        }
        assert(h@.subrange(0, i as int) =~= h@);
        out
    }

    /// The hash of each piece in lowercase hex, by piece index.
    pub fn hex_pieces(&self) -> (r: Vec<String>)
        ensures
            r@.len() == chunk_count(self.pieces@.len()),
            forall|i: int| 0 <= i < r@.len() ==> (#[trigger] r@[i])@ == hex_text(piece_hash_chunk(self.pieces@, i)),
    {
        let p = self.pieces.as_slice();
        let mut r: Vec<String> = Vec::new();
        let mut start: usize = 0;
        while start < p.len()
            invariant
                start <= p@.len(),
                start == 20 * r@.len() || (start == p@.len() && 20 * r@.len() - 20 < start < 20
                    * r@.len()),
                p@ == self.pieces@,
                forall|i: int| 0 <= i < r@.len() ==> (#[trigger] r@[i])@ == hex_text(piece_hash_chunk(p@, i)),
            decreases p@.len() - start,
        {
            let end = if p.len() - start >= 20 { start + 20 } else { p.len() };
            let chunk = copy_range(p, start, end);
            let text = hex_encode(chunk.as_slice());
            r.push(text);
            start = end;
        }
        assert(r@.len() == chunk_count(p@.len()));
        r
    }
}

} // verus!
