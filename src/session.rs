//! Decisions of one peer session: the handshake check, the state machine
//! driven by incoming messages, and the block-level download of a piece.
//! The caller owns the connection, performs the actions and reports what
//! arrived.

use vstd::prelude::*;
use crate::assembler::{
    accept_spec, empty_assembly, AssemblyError, AssemblyView, PieceAssembly,
};
use crate::buffer::{bytes_contents, bytes_slice};
use crate::bytes_util::{bytes_equal, copy_range};
use crate::codec::{
    bit_set, bitfield_has_piece, decode_handshake, is_handshake, Frame, Handshake, PeerMessageType,
};
use crate::digest::sha1_of;

verus! {

/// The default block size: 16 KiB.
pub const BLOCK_SIZE: u32 = 16384;

/// How many block requests may be outstanding at once.
pub const MAX_IN_FLIGHT: usize = 5;

/// Failures of a session attempt.
#[derive(Debug, Clone, Copy, PartialEq, Eq, Structural)]
pub enum SessionError {
    /// The connection could not be established.
    ConnectFailed,
    /// The peer's handshake is malformed or names another info hash.
    HandshakeFailed,
    /// No bytes arrived within the configured window.
    Timeout,
    /// The assembled piece failed its integrity check.
    HashMismatch,
    /// A `piece` message whose length differs from the block requested.
    BadBlock,
}

/// Checks the peer's handshake: it must be well formed and carry
/// `info_hash`.
pub fn check_handshake(response: &[u8], info_hash: &[u8]) -> (r: Result<Handshake, SessionError>)
    ensures
        match r {
            Ok(h) => is_handshake(response@) && response@.subrange(28, 48) == info_hash@ && h.info_hash@
                == info_hash@ && h.peer_id@ == response@.subrange(48, 68),
            Err(e) => e == SessionError::HandshakeFailed && !(is_handshake(response@)
                && response@.subrange(28, 48) == info_hash@),
        },
{
    match decode_handshake(response) {
        Err(_) => Err(SessionError::HandshakeFailed),
        Ok(h) => {
            if bytes_equal(h.info_hash.as_slice(), info_hash) {
                Ok(h)
            } else {
                Err(SessionError::HandshakeFailed)
            }
        },
    }
}

/// One block to ask for.
#[derive(Debug, Clone, Copy, PartialEq, Eq, Structural)]
pub struct BlockRequest {
    pub index: u32,
    pub begin: u32,
    pub length: u32,
}

/// How many blocks a piece of `len` bytes has.
pub open spec fn block_count(len: nat) -> nat {
    ((len + BLOCK_SIZE - 1) / (BLOCK_SIZE as int)) as nat
}

/// Block `k` of piece `index`, `len` bytes long: full blocks, the last one
/// sized to the remainder.
pub open spec fn block_at(index: u32, len: nat, k: int) -> BlockRequest {
    BlockRequest {
        index,
        begin: (k * BLOCK_SIZE) as u32,
        length: if len - k * BLOCK_SIZE >= BLOCK_SIZE {
            BLOCK_SIZE
        } else {
            (len - k * BLOCK_SIZE) as u32
        },
    }
}

/// The blocks of piece `index`, `piece_length` bytes long, in order.
pub fn block_requests(index: u32, piece_length: u32) -> (r: Vec<BlockRequest>)
    ensures
        r@.len() == block_count(piece_length as nat),
        forall|k: int| 0 <= k < r@.len() ==> #[trigger] r@[k] == block_at(index, piece_length as nat, k),
{
    let mut r: Vec<BlockRequest> = Vec::new();
    let mut begin: u32 = 0;
    while begin < piece_length
        invariant
            begin <= piece_length,
            begin == r@.len() * BLOCK_SIZE || (begin == piece_length && (r@.len() - 1) * BLOCK_SIZE
                < begin < r@.len() * BLOCK_SIZE),
            forall|k: int| 0 <= k < r@.len() ==> #[trigger] r@[k] == block_at(index, piece_length as nat, k),
        decreases piece_length - begin,
    {
        let length = if piece_length - begin >= BLOCK_SIZE { BLOCK_SIZE } else { piece_length - begin };
        r.push(BlockRequest { index, begin, length });
        begin = begin + length;
    }
    r
}

/// Where one block of the piece being downloaded stands.
#[derive(Debug, Clone, Copy, PartialEq, Eq, Structural)]
pub enum BlockStatus {
    Unrequested,
    Requested,
    Received,
}

/// What became of an arriving `piece` message.
#[derive(Debug, Clone, Copy, PartialEq, Eq, Structural)]
pub enum BlockOutcome {
    /// It answered an outstanding request and its bytes were stored.
    Accepted,
    /// It matched no outstanding request (for instance, one cancelled by a
    /// choke) and was dropped.
    Ignored,
}

/// The block-level download of one piece.
pub struct PieceDownload {
    index: u32,
    blocks: Vec<BlockRequest>,
    status: Vec<BlockStatus>,
    assembly: PieceAssembly,
}

impl PieceDownload {
    pub closed spec fn index_spec(&self) -> u32 {
        self.index
    }

    pub closed spec fn length_spec(&self) -> nat {
        self.assembly@.buffer.len()
    }

    /// The status of each block.
    pub closed spec fn statuses(&self) -> Seq<BlockStatus> {
        self.status@
    }

    /// The bytes received so far, and which arrived.
    pub closed spec fn assembly_spec(&self) -> crate::assembler::AssemblyView {
        self.assembly@
    }

    pub closed spec fn wf(&self) -> bool {
        &&& self.assembly@.wf()
        &&& self.assembly@.buffer.len() <= u32::MAX
        &&& self.blocks@.len() == block_count(self.assembly@.buffer.len())
        &&& self.status@.len() == self.blocks@.len()
        &&& forall|k: int| 0 <= k < self.blocks@.len() ==> #[trigger] self.blocks@[k] == block_at(
            self.index,
            self.assembly@.buffer.len(),
            k,
        )
        &&& forall|k: int| 0 <= k < self.status@.len() ==> block_tracked(
            self.assembly@,
            self.blocks@[k],
            #[trigger] self.status@[k],
        )
    }

    /// Starts the download of piece `index`, `piece_length` bytes long.
    pub fn new(index: u32, piece_length: u32) -> (r: PieceDownload)
        ensures
            r.wf(),
            r.index_spec() == index,
            r.length_spec() == piece_length,
            r.assembly_spec() == empty_assembly(piece_length as nat),
            r.statuses().len() == block_count(piece_length as nat),
            forall|k: int| 0 <= k < r.statuses().len() ==> #[trigger] r.statuses()[k] == BlockStatus::Unrequested,
    {
        let blocks = block_requests(index, piece_length);
        let status: Vec<BlockStatus> = vec![BlockStatus::Unrequested; blocks.len()];
        PieceDownload { index, blocks, status, assembly: PieceAssembly::new(piece_length as usize) }
    }

    /// How many requests are outstanding.
    pub fn in_flight(&self) -> (r: usize)
        ensures
            r == count_requested(self.statuses(), self.statuses().len() as int),
    {
        let mut n: usize = 0;
        let mut k: usize = 0;
        while k < self.status.len()
            invariant
                k <= self.status@.len(),
                n == count_requested(self.status@, k as int),
                n <= k,
            decreases self.status@.len() - k,
        {
            if self.status[k] == BlockStatus::Requested {
                n = n + 1;
            }
            k = k + 1;
        }
        n
    }

    /// The next requests to send: the lowest-numbered unrequested blocks,
    /// as many as keep at most `MAX_IN_FLIGHT` outstanding. They are marked
    /// requested.
    pub fn next_requests(&mut self) -> (r: Vec<BlockRequest>)
        requires
            old(self).wf(),
        ensures
            final(self).wf(),
            final(self).index_spec() == old(self).index_spec(),
            final(self).assembly_spec() == old(self).assembly_spec(),
            final(self).statuses().len() == old(self).statuses().len(),
            forall|j: int| 0 <= j < r@.len() ==> {
                let k = block_number(#[trigger] r@[j]);
                &&& 0 <= k < old(self).statuses().len()
                &&& old(self).statuses()[k] == BlockStatus::Unrequested
                &&& final(self).statuses()[k] == BlockStatus::Requested
                &&& r@[j] == block_at(old(self).index_spec(), old(self).length_spec(), k)
            },
            forall|k: int| 0 <= k < old(self).statuses().len() ==> (#[trigger] final(self).statuses()[k]
                == old(self).statuses()[k] || (old(self).statuses()[k] == BlockStatus::Unrequested
                && final(self).statuses()[k] == BlockStatus::Requested)),
            ({
                let before = count_requested(old(self).statuses(), old(self).statuses().len() as int);
                let after = count_requested(final(self).statuses(), final(self).statuses().len() as int);
                if before >= MAX_IN_FLIGHT {
                    r@.len() == 0 && final(self).statuses() == old(self).statuses()
                } else {
                    &&& after == before + r@.len()
                    &&& after <= MAX_IN_FLIGHT
                    &&& (after == MAX_IN_FLIGHT || !has_unrequested(final(self).statuses()))
                }
            }),
    {
        let mut out: Vec<BlockRequest> = Vec::new();
        let outstanding = self.in_flight();
        if outstanding >= MAX_IN_FLIGHT {
            return out;
        }
        let budget = MAX_IN_FLIGHT - outstanding;
        let ghost old_status = self.status@;
        let mut k: usize = 0;
        while k < self.status.len() && out.len() < budget
            invariant
                self.wf(),
                self.index == old(self).index,
                self.assembly@ == old(self).assembly@,
                self.blocks@ == old(self).blocks@,
                old_status == old(self).status@,
                self.status@.len() == old_status.len(),
                k <= self.status@.len(),
                0 < budget,
                out@.len() <= budget,
                forall|j: int| k <= j < self.status@.len() ==> #[trigger] self.status@[j] == old_status[j],
                forall|j: int| 0 <= j < old_status.len() ==> (#[trigger] self.status@[j] == old_status[j]
                    || (old_status[j] == BlockStatus::Unrequested && self.status@[j]
                    == BlockStatus::Requested)),
                forall|j: int| 0 <= j < out@.len() ==> {
                    let m = block_number(#[trigger] out@[j]);
                    &&& 0 <= m < k
                    &&& old_status[m] == BlockStatus::Unrequested
                    &&& self.status@[m] == BlockStatus::Requested
                    &&& out@[j] == block_at(self.index, self.assembly@.buffer.len(), m)
                },
                forall|j: int| 0 <= j < k ==> #[trigger] self.status@[j] != BlockStatus::Unrequested,
                count_requested(self.status@, self.status@.len() as int) == outstanding + out@.len(),
                outstanding + budget == MAX_IN_FLIGHT,
                outstanding == count_requested(old_status, old_status.len() as int),
            decreases self.status@.len() - k,
        {
            if self.status[k] == BlockStatus::Unrequested {
                let ghost prev = self.status@;
                self.status.set(k, BlockStatus::Requested);
                proof {
                    lemma_count_update(prev, k as int, prev.len() as int);
                    let len = self.assembly@.buffer.len() as int;
                    assert(k < block_count(len as nat));
                    assert(k * BLOCK_SIZE < len) by (nonlinear_arith)
                        requires k < (len + BLOCK_SIZE - 1) / (BLOCK_SIZE as int), len >= 0, k >= 0;
                    assert(self.blocks@[k as int].begin == k * BLOCK_SIZE);
                    assert((k * BLOCK_SIZE) / (BLOCK_SIZE as int) == k) by (nonlinear_arith);
                }
                out.push(self.blocks[k]);
            }
            k = k + 1;
        }
        proof {
            if out@.len() < budget {
                assert(!has_unrequested(self.status@));
            }
        }
        out
    }

    /// A choke cancels every outstanding request: those blocks go back to
    /// unrequested, to be asked for again after the next unchoke.
    pub fn on_choke(&mut self)
        requires
            old(self).wf(),
        ensures
            final(self).wf(),
            final(self).index_spec() == old(self).index_spec(),
            final(self).assembly_spec() == old(self).assembly_spec(),
            final(self).statuses().len() == old(self).statuses().len(),
            forall|k: int| 0 <= k < old(self).statuses().len() ==> #[trigger] final(self).statuses()[k]
                == if old(self).statuses()[k] == BlockStatus::Requested {
                BlockStatus::Unrequested
            } else {
                old(self).statuses()[k]
            },
    {
        let mut k: usize = 0;
        while k < self.status.len()
            invariant
                self.wf(),
                self.index == old(self).index,
                self.assembly@ == old(self).assembly@,
                self.blocks@ == old(self).blocks@,
                self.status@.len() == old(self).status@.len(),
                k <= self.status@.len(),
                forall|j: int| k <= j < self.status@.len() ==> #[trigger] self.status@[j] == old(self).status@[j],
                forall|j: int| 0 <= j < k ==> #[trigger] self.status@[j] == if old(self).status@[j]
                    == BlockStatus::Requested {
                    BlockStatus::Unrequested
                } else {
                    old(self).status@[j]
                },
            decreases self.status@.len() - k,
        {
            if self.status[k] == BlockStatus::Requested {
                self.status.set(k, BlockStatus::Unrequested);
            }
            k = k + 1;
        }
    }

    /// Takes a `piece` message. When `(index, begin)` names an outstanding
    /// request, the bytes must have the requested length (else `BadBlock`)
    /// and are stored at their offset; otherwise the message is ignored.
    pub fn on_block(&mut self, index: u32, begin: u32, data: &[u8]) -> (r: Result<BlockOutcome, SessionError>)
        requires
            old(self).wf(),
        ensures
            final(self).wf(),
            final(self).index_spec() == old(self).index_spec(),
            final(self).statuses().len() == old(self).statuses().len(),
            match r {
                Ok(BlockOutcome::Accepted) => exists|k: int| 0 <= k < old(self).statuses().len()
                    && old(self).statuses()[k] == BlockStatus::Requested
                    && #[trigger] block_at(old(self).index_spec(), old(self).length_spec(), k).begin == begin
                    && index == old(self).index_spec()
                    && data@.len() == block_at(old(self).index_spec(), old(self).length_spec(), k).length
                    && final(self).statuses() == old(self).statuses().update(k, BlockStatus::Received)
                    && accept_spec(old(self).assembly_spec(), begin as int, data@) == Ok::<
                        crate::assembler::AssemblyView,
                        AssemblyError,
                    >(final(self).assembly_spec()),
                Ok(BlockOutcome::Ignored) => final(self).statuses() == old(self).statuses()
                    && final(self).assembly_spec() == old(self).assembly_spec()
                    && !(index == old(self).index_spec() && exists|k: int| 0 <= k < old(self).statuses().len()
                    && old(self).statuses()[k] == BlockStatus::Requested
                    && #[trigger] block_at(old(self).index_spec(), old(self).length_spec(), k).begin == begin),
                Err(e) => e == SessionError::BadBlock && final(self).statuses() == old(self).statuses()
                    && final(self).assembly_spec() == old(self).assembly_spec()
                    && index == old(self).index_spec() && exists|k: int| 0 <= k < old(self).statuses().len()
                    && old(self).statuses()[k] == BlockStatus::Requested
                    && #[trigger] block_at(old(self).index_spec(), old(self).length_spec(), k).begin == begin
                    && data@.len() != block_at(old(self).index_spec(), old(self).length_spec(), k).length,
            },
    {
        if index != self.index {
            return Ok(BlockOutcome::Ignored);
        }
        let mut k: usize = 0;
        while k < self.status.len()
            invariant
                self.wf(),
                self.index == old(self).index,
                self.status@ == old(self).status@,
                self.assembly@ == old(self).assembly@,
                self.blocks@ == old(self).blocks@,
                index == self.index,
                k <= self.status@.len(),
                forall|j: int| 0 <= j < k ==> !(#[trigger] self.status@[j] == BlockStatus::Requested
                    && self.blocks@[j].begin == begin),
            decreases self.status@.len() - k,
        {
            if self.status[k] == BlockStatus::Requested && self.blocks[k].begin == begin {
                let block = self.blocks[k];
                if data.len() != block.length as usize {
                    assert(block_at(self.index, self.assembly@.buffer.len(), k as int).begin == begin);
                    assert(block_at(old(self).index_spec(), old(self).length_spec(), k as int).begin == begin);
                    assert(old(self).statuses()[k as int] == BlockStatus::Requested);
                    return Err(SessionError::BadBlock);
                }
                let ghost before = self.assembly@;
                proof {
                    lemma_block_geometry(self.index, before.buffer.len(), k as int, k as int);
                    assert(block_tracked(before, self.blocks@[k as int], self.status@[k as int]));
                }
                let accepted = self.assembly.accept_block(begin as usize, data);
                if accepted.is_err() {
                    return Err(SessionError::BadBlock);
                }
                self.status.set(k, BlockStatus::Received);
                assert(self.status@ =~= old(self).status@.update(k as int, BlockStatus::Received));
                proof {
                    let after = self.assembly@;
                    assert forall|j: int| 0 <= j < self.status@.len() implies block_tracked(
                        after,
                        self.blocks@[j],
                        #[trigger] self.status@[j],
                    ) by {
                        assert(block_tracked(before, self.blocks@[j], old(self).status@[j]));
                        if j != k {
                            if j < k {
                                lemma_block_geometry(self.index, before.buffer.len(), j, k as int);
                            } else {
                                lemma_block_geometry(self.index, before.buffer.len(), k as int, j);
                            }
                        }
                    }
                }
                assert(old(self).blocks@[k as int] == block_at(self.index, old(self).assembly@.buffer.len(), k as int));
                assert(block_at(self.index, old(self).assembly@.buffer.len(), k as int).begin == begin);
                assert(block_at(old(self).index_spec(), old(self).length_spec(), k as int).begin == begin);
                assert(old(self).statuses()[k as int] == BlockStatus::Requested);
                assert(data@.len() == block_at(old(self).index_spec(), old(self).length_spec(), k as int).length);
                assert(self.statuses() == old(self).statuses().update(k as int, BlockStatus::Received));
                return Ok(BlockOutcome::Accepted);
            }
            k = k + 1;
        }
        assert forall|j: int| 0 <= j < self.status@.len() && self.status@[j] == BlockStatus::Requested
            implies #[trigger] block_at(self.index, self.assembly@.buffer.len(), j).begin != begin by {
            assert(self.blocks@[j] == block_at(self.index, self.assembly@.buffer.len(), j));
        }
        Ok(BlockOutcome::Ignored)
    }

    /// Whether every byte of the piece has arrived.
    pub fn is_complete(&self) -> (r: bool)
        ensures
            r == self.assembly_spec().complete(),
    {
        self.assembly.is_complete()
    }

    /// Verifies the assembled piece against `expected_hash`: the bytes when
    /// complete and matching, `HashMismatch` otherwise.
    pub fn finish(self, expected_hash: &[u8]) -> (r: Result<Vec<u8>, SessionError>)
        requires
            self.wf(),
        ensures
            match r {
                Ok(b) => self.assembly_spec().complete() && sha1_of(self.assembly_spec().buffer)
                    == expected_hash@ && b@ == self.assembly_spec().buffer,
                Err(e) => e == SessionError::HashMismatch && !(self.assembly_spec().complete()
                    && sha1_of(self.assembly_spec().buffer) == expected_hash@),
            },
    {
        match self.assembly.finalize(expected_hash) {
            Ok(b) => Ok(b),
            Err(_) => Err(SessionError::HashMismatch),
        }
    }
}

/// A received block's bytes have all arrived; the bytes of any other block
/// have not.
pub open spec fn block_tracked(a: AssemblyView, b: BlockRequest, st: BlockStatus) -> bool {
    if st == BlockStatus::Received {
        forall|i: int| b.begin <= i < b.begin + b.length ==> #[trigger] a.filled[i]
    } else {
        a.range_free(b.begin as int, b.length as int)
    }
}

/// Blocks start at multiples of the block size, lie inside the piece, and
/// follow one another without overlap.
pub proof fn lemma_block_geometry(index: u32, len: nat, j: int, k: int)
    requires
        len <= u32::MAX,
        0 <= j < block_count(len),
        0 <= k < block_count(len),
    ensures
        block_at(index, len, k).begin == k * BLOCK_SIZE,
        block_at(index, len, k).length > 0,
        block_at(index, len, k).begin + block_at(index, len, k).length <= len,
        j < k ==> block_at(index, len, j).begin + block_at(index, len, j).length <= block_at(
            index,
            len,
            k,
        ).begin,
{
    assert(k * BLOCK_SIZE < len) by (nonlinear_arith)
        requires k < (len + BLOCK_SIZE - 1) / (BLOCK_SIZE as int), len >= 0, k >= 0;
    assert(j * BLOCK_SIZE < len) by (nonlinear_arith)
        requires j < (len + BLOCK_SIZE - 1) / (BLOCK_SIZE as int), len >= 0, j >= 0;
    if j < k {
        assert(j * BLOCK_SIZE + BLOCK_SIZE <= k * BLOCK_SIZE) by (nonlinear_arith)
            requires j < k;
    }
}

/// The position of a block within its piece.
pub open spec fn block_number(b: BlockRequest) -> int {
    (b.begin / BLOCK_SIZE) as int
}

/// How many of the first `n` statuses are `Requested`.
pub open spec fn count_requested(s: Seq<BlockStatus>, n: int) -> nat
    decreases n,
{
    if n <= 0 {
        0
    } else {
        count_requested(s, n - 1) + if s[n - 1] == BlockStatus::Requested { 1nat } else { 0nat }
    }
}

/// Requesting one unrequested block adds one to the count of requested
/// blocks.
proof fn lemma_count_update(s: Seq<BlockStatus>, k: int, n: int)
    requires
        0 <= k < n <= s.len(),
        s[k] == BlockStatus::Unrequested,
    ensures
        count_requested(s.update(k, BlockStatus::Requested), n) == count_requested(s, n) + 1,
    decreases n,
{
    if n - 1 > k {
        lemma_count_update(s, k, n - 1);
    } else {
        assert(n - 1 == k);
        lemma_count_same(s, s.update(k, BlockStatus::Requested), k);
    }
}

/// Counts agree on sequences that agree up to `n`.
proof fn lemma_count_same(a: Seq<BlockStatus>, b: Seq<BlockStatus>, n: int)
    requires
        0 <= n <= a.len(),
        n <= b.len(),
        forall|j: int| 0 <= j < n ==> a[j] == b[j],
    ensures
        count_requested(a, n) == count_requested(b, n),
    decreases n,
{
    if n > 0 {
        lemma_count_same(a, b, n - 1);
    }
}

pub open spec fn has_unrequested(s: Seq<BlockStatus>) -> bool {
    exists|k: int| 0 <= k < s.len() && #[trigger] s[k] == BlockStatus::Unrequested
}

/// The states of a session once connected.
#[derive(Debug, Clone, Copy, PartialEq, Eq, Structural)]
pub enum SessionState {
    /// Waiting for the peer's handshake.
    Handshaking,
    /// Waiting for the peer to say which pieces it has.
    AwaitingBitfield,
    /// `interested` sent; choked.
    Interested,
    /// The peer accepts requests.
    Unchoked,
    /// The attempt is over.
    Closed,
}

/// What the caller does after a message.
#[derive(Debug, Clone, Copy, PartialEq, Eq, Structural)]
pub enum SessionAction {
    Nothing,
    /// Send `interested`.
    SendInterested,
    /// Send the download's next requests.
    SendRequests,
    /// The peer choked: cancel the outstanding requests.
    CancelRequests,
    /// Hand the `piece` payload to the download.
    StoreBlock,
}

/// The next state and the action for a message of type `t` (`None` for
/// keep-alive) in state `s`. A choke or unchoke before the peer said what it
/// has is ignored.
pub open spec fn step(s: SessionState, t: Option<PeerMessageType>) -> (SessionState, SessionAction) {
    match t {
        None => (s, SessionAction::Nothing),
        Some(t) => match s {
            SessionState::AwaitingBitfield => if t == PeerMessageType::Bitfield || t == PeerMessageType::Have {
                (SessionState::Interested, SessionAction::SendInterested)
            } else {
                (s, SessionAction::Nothing)
            },
            SessionState::Interested => if t == PeerMessageType::Unchoke {
                (SessionState::Unchoked, SessionAction::SendRequests)
            } else {
                (s, SessionAction::Nothing)
            },
            SessionState::Unchoked => if t == PeerMessageType::Choke {
                (SessionState::Interested, SessionAction::CancelRequests)
            } else if t == PeerMessageType::Piece {
                (s, SessionAction::StoreBlock)
            } else {
                (s, SessionAction::Nothing)
            },
            _ => (s, SessionAction::Nothing),
        },
    }
}

/// The state of one peer connection: where the exchange stands and which
/// pieces the peer advertised.
pub struct PeerSession {
    state: SessionState,
    bitfield: Vec<u8>,
    have: Vec<u32>,
}

impl PeerSession {
    pub closed spec fn state_spec(&self) -> SessionState {
        self.state
    }

    /// Whether the peer advertised piece `i`, by bitfield or by `have`.
    pub closed spec fn advertises(&self, i: u32) -> bool {
        bit_set(self.bitfield@, i as int) || self.have@.contains(i)
    }

    /// A session whose handshake has been sent.
    pub fn new() -> (r: PeerSession)
        ensures
            r.state_spec() == SessionState::Handshaking,
            forall|i: u32| !#[trigger] r.advertises(i),
    {
        PeerSession { state: SessionState::Handshaking, bitfield: Vec::new(), have: Vec::new() }
    }

    pub fn state(&self) -> (r: SessionState)
        ensures
            r == self.state_spec(),
    {
        self.state
    }

    /// Takes the peer's handshake while handshaking: a good one for
    /// `info_hash` moves on to awaiting the bitfield, any other closes the
    /// session with `HandshakeFailed`, as does a handshake in another state.
    pub fn on_handshake(&mut self, response: &[u8], info_hash: &[u8]) -> (r: Result<Handshake, SessionError>)
        ensures
            forall|i: u32| #[trigger] final(self).advertises(i) == old(self).advertises(i),
            match r {
                Ok(h) => old(self).state_spec() == SessionState::Handshaking && is_handshake(response@)
                    && response@.subrange(28, 48) == info_hash@ && h.peer_id@ == response@.subrange(48, 68)
                    && final(self).state_spec() == SessionState::AwaitingBitfield,
                Err(e) => e == SessionError::HandshakeFailed && !(old(self).state_spec()
                    == SessionState::Handshaking && is_handshake(response@) && response@.subrange(28, 48)
                    == info_hash@) && final(self).state_spec() == SessionState::Closed,
            },
    {
        if self.state != SessionState::Handshaking {
            self.state = SessionState::Closed;
            return Err(SessionError::HandshakeFailed);
        }
        match check_handshake(response, info_hash) {
            Ok(h) => {
                self.state = SessionState::AwaitingBitfield;
                Ok(h)
            },
            Err(e) => {
                self.state = SessionState::Closed;
                Err(e)
            },
        }
    }

    /// Takes one decoded frame: moves the state as `step` says, records the
    /// pieces that a `bitfield` or `have` advertises, and returns the action.
    /// A `have` whose payload is not four bytes advertises nothing.
    pub fn on_message(&mut self, frame: &Frame) -> (r: SessionAction)
        ensures
            (final(self).state_spec(), r) == step(old(self).state_spec(), frame_type(*frame)),
            frame_type(*frame) != Some(PeerMessageType::Bitfield) ==> forall|i: u32| #[trigger] old(self).advertises(i)
                ==> final(self).advertises(i),
            match *frame {
                Frame::Message(m) => {
                    &&& m.message_id == PeerMessageType::Bitfield ==> forall|i: u32| #[trigger] final(self).advertises(i)
                        <== bit_set(bytes_contents(m.payload), i as int)
                    &&& m.message_id == PeerMessageType::Have && bytes_contents(m.payload).len() == 4
                        ==> final(self).advertises(
                        crate::bytes_util::be32_value(bytes_contents(m.payload)) as u32,
                    )
                },
                Frame::KeepAlive => true,
            },
    {
        match frame {
            Frame::KeepAlive => SessionAction::Nothing,
            Frame::Message(m) => {
                if m.message_id == PeerMessageType::Bitfield {
                    let payload = bytes_slice(&m.payload);
                    self.bitfield = copy_range(payload, 0, payload.len());
                    assert(payload@.subrange(0, payload@.len() as int) =~= payload@);
                } else if m.message_id == PeerMessageType::Have {
                    match crate::codec::decode_have(bytes_slice(&m.payload)) {
                        Some(i) => {
                            self.have.push(i);
                            assert(self.have@[self.have@.len() - 1] == i);
                            assert forall|j: u32| old(self).have@.contains(j) implies self.have@.contains(j) by {
                                let w = choose|w: int| 0 <= w < old(self).have@.len() && old(self).have@[w] == j;
                                assert(self.have@[w] == j);
                            }
                        },
                        None => {},
                    }
                }
                let (next, action) = next_step(self.state, m.message_id);
                self.state = next;
                action
            },
        }
    }

    /// Whether the peer advertised piece `index`.
    pub fn has_piece(&self, index: u32) -> (r: bool)
        ensures
            r == self.advertises(index),
    {
        if bitfield_has_piece(self.bitfield.as_slice(), index) {
            return true;
        }
        let mut k: usize = 0;
        while k < self.have.len()
            invariant
                k <= self.have@.len(),
                forall|j: int| 0 <= j < k ==> #[trigger] self.have@[j] != index,
            decreases self.have@.len() - k,
        {
            if self.have[k] == index {
                return true;
            }
            k = k + 1;
        }
        false
    }

    /// Ends the session.
    pub fn close(&mut self)
        ensures
            final(self).state_spec() == SessionState::Closed,
    {
        self.state = SessionState::Closed;
    }
}

/// The type of a frame; `None` for keep-alive.
pub open spec fn frame_type(f: Frame) -> Option<PeerMessageType> {
    match f {
        Frame::KeepAlive => None,
        Frame::Message(m) => Some(m.message_id),
    }
}

fn next_step(s: SessionState, t: PeerMessageType) -> (r: (SessionState, SessionAction))
    ensures
        r == step(s, Some(t)),
{
    match s {
        SessionState::AwaitingBitfield => if t == PeerMessageType::Bitfield || t == PeerMessageType::Have {
            (SessionState::Interested, SessionAction::SendInterested)
        } else {
            (s, SessionAction::Nothing)
        },
        SessionState::Interested => if t == PeerMessageType::Unchoke {
            (SessionState::Unchoked, SessionAction::SendRequests)
        } else {
            (s, SessionAction::Nothing)
        },
        SessionState::Unchoked => if t == PeerMessageType::Choke {
            (SessionState::Interested, SessionAction::CancelRequests)
        } else if t == PeerMessageType::Piece {
            (s, SessionAction::StoreBlock)
        } else {
            (s, SessionAction::Nothing)
        },
        _ => (s, SessionAction::Nothing),
    }
}

} // verus!
