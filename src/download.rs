//! The geometry of a download: how many pieces, how long each is, and the
//! hash each must match.

use vstd::prelude::*;
use crate::bytes_util::copy_range;
use crate::torrent::TorrentFileInfo;

verus! {

/// How many pieces `total` bytes make in pieces of `piece_length`.
pub open spec fn piece_count_of(total: nat, piece_length: nat) -> nat
    recommends
        piece_length > 0,
{
    ((total + piece_length - 1) / (piece_length as int)) as nat
}

/// The length of piece `i`: `piece_length`, but for the last piece, which
/// holds what remains.
pub open spec fn piece_size_of(total: nat, piece_length: nat, i: int) -> int {
    if total - i * piece_length >= piece_length {
        piece_length as int
    } else {
        total - i * piece_length
    }
}

/// A download plan for one file.
pub struct Download {
    total_length: u64,
    piece_length: u64,
    piece_hashes: Vec<u8>,
}

impl Download {
    pub closed spec fn total_spec(&self) -> nat {
        self.total_length as nat
    }

    pub closed spec fn piece_length_spec(&self) -> nat {
        self.piece_length as nat
    }

    pub closed spec fn hashes_spec(&self) -> Seq<u8> {
        self.piece_hashes@
    }

    pub open spec fn wf(&self) -> bool {
        &&& self.piece_length_spec() > 0
        &&& self.hashes_spec().len() == 20 * piece_count_of(self.total_spec(), self.piece_length_spec())
    }

    /// The plan for `info`; `None` when the piece length is zero or the
    /// hashes are not twenty bytes for each piece.
    pub fn new(info: &TorrentFileInfo) -> (r: Option<Download>)
        ensures
            match r {
                Some(d) => d.wf() && d.total_spec() == info.length && d.piece_length_spec()
                    == info.piece_length && d.hashes_spec() == info.pieces@,
                None => info.piece_length == 0 || info.pieces@.len() != 20 * piece_count_of(
                    info.length as nat,
                    info.piece_length as nat,
                ),
            },
    {
        if info.piece_length == 0 {
            return None;
        }
        let count: u128 = (info.length / info.piece_length) as u128 + if info.length % info.piece_length == 0 { 0 } else { 1 };
        proof {
            let t = info.length as int;
            let p = info.piece_length as int;
            vstd::arithmetic::div_mod::lemma_fundamental_div_mod(t, p);
            vstd::arithmetic::div_mod::lemma_fundamental_div_mod(t + p - 1, p);
            assert(count == (t + p - 1) / p) by (nonlinear_arith)
                requires
                    p > 0,
                    t == p * (t / p) + t % p,
                    0 <= t % p < p,
                    t + p - 1 == p * ((t + p - 1) / p) + (t + p - 1) % p,
                    0 <= (t + p - 1) % p < p,
                    count == t / p + if t % p == 0 { 0int } else { 1int };
        }
        if info.pieces.len() as u128 != 20 * count {
            return None;
        }
        Some(Download { total_length: info.length, piece_length: info.piece_length, piece_hashes: info.pieces.clone() })
    }

    /// How many pieces there are.
    pub fn piece_count(&self) -> (r: usize)
        requires
            self.wf(),
        ensures
            r == piece_count_of(self.total_spec(), self.piece_length_spec()),
    {
        self.piece_hashes.len() / 20
    }

    /// The length of piece `i`.
    pub fn piece_size(&self, i: usize) -> (r: u64)
        requires
            self.wf(),
            i < piece_count_of(self.total_spec(), self.piece_length_spec()),
        ensures
            r == piece_size_of(self.total_spec(), self.piece_length_spec(), i as int),
            0 < r <= self.piece_length_spec(),
    {
        proof {
            let t = self.total_length as int;
            let p = self.piece_length as int;
            assert(i * p < t) by (nonlinear_arith)
                requires p > 0, 0 <= i < (t + p - 1) / p, t >= 0;
        }
        let start = (i as u64) * self.piece_length;
        if self.total_length - start >= self.piece_length {
            self.piece_length
        } else {
            self.total_length - start
        }
    }

    /// The 20-byte hash that piece `i` must match.
    pub fn piece_hash(&self, i: usize) -> (r: Vec<u8>)
        requires
            self.wf(),
            i < piece_count_of(self.total_spec(), self.piece_length_spec()),
        ensures
            r@ == self.hashes_spec().subrange(20 * i, 20 * i + 20),
    {
        let n = self.piece_hashes.len();
        assert(20 * i + 20 <= n);
        copy_range(self.piece_hashes.as_slice(), 20 * i, 20 * i + 20)
    }
}

} // verus!
