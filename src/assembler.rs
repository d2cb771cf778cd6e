//! The piece assembler: collects the blocks of one piece at their offsets
//! and releases the bytes only after the SHA-1 check.

use vstd::prelude::*;
use crate::bytes_util::bytes_equal;
use crate::digest::{sha1_digest, sha1_of};

verus! {

/// Failures of the assembler.
#[derive(Debug, Clone, Copy, PartialEq, Eq, Structural)]
pub enum AssemblyError {
    /// The block reaches past the end of the piece.
    OutOfRange,
    /// Some byte of the block's range has already arrived.
    DuplicateBlock,
    /// Some byte of the piece has not arrived yet.
    Incomplete,
    /// The digest of the assembled bytes differs from the expected hash.
    HashMismatch,
}

/// What an assembly holds: the buffer and, for each byte, whether it arrived.
pub struct AssemblyView {
    pub buffer: Seq<u8>,
    pub filled: Seq<bool>,
}

impl AssemblyView {
    pub open spec fn wf(self) -> bool {
        self.buffer.len() == self.filled.len()
    }

    pub open spec fn complete(self) -> bool {
        forall|i: int| 0 <= i < self.filled.len() ==> #[trigger] self.filled[i]
    }

    /// No byte of `[offset, offset + len)` has arrived.
    pub open spec fn range_free(self, offset: int, len: int) -> bool {
        forall|i: int| offset <= i < offset + len ==> !#[trigger] self.filled[i]
    }

    /// Every byte that arrived equals the byte of `content` at its place.
    pub open spec fn agrees_with(self, content: Seq<u8>) -> bool {
        &&& self.wf()
        &&& self.buffer.len() == content.len()
        &&& forall|i: int| 0 <= i < content.len() && #[trigger] self.filled[i] ==> self.buffer[i] == content[i]
    }
}

/// An assembly of `len` bytes where nothing has arrived.
pub open spec fn empty_assembly(len: nat) -> AssemblyView {
    AssemblyView { buffer: Seq::new(len, |i: int| 0u8), filled: Seq::new(len, |i: int| false) }
}

/// The outcome of accepting `bytes` at `offset`.
pub open spec fn accept_spec(a: AssemblyView, offset: int, bytes: Seq<u8>) -> Result<AssemblyView, AssemblyError> {
    if offset + bytes.len() > a.buffer.len() {
        Err(AssemblyError::OutOfRange)
    } else if !a.range_free(offset, bytes.len() as int) {
        Err(AssemblyError::DuplicateBlock)
    } else {
        Ok(
            AssemblyView {
                buffer: Seq::new(
                    a.buffer.len(),
                    |i: int|
                        if offset <= i < offset + bytes.len() {
                            bytes[i - offset]
                        } else {
                            a.buffer[i]
                        },
                ),
                filled: Seq::new(
                    a.filled.len(),
                    |i: int| if offset <= i < offset + bytes.len() { true } else { a.filled[i] },
                ),
            },
        )
    }
}

/// The accumulator for one piece.
pub struct PieceAssembly {
    buffer: Vec<u8>,
    filled: Vec<bool>,
}

impl View for PieceAssembly {
    type V = AssemblyView;

    closed spec fn view(&self) -> AssemblyView {
        AssemblyView { buffer: self.buffer@, filled: self.filled@ }
    }
}

impl PieceAssembly {
    /// An assembly for a piece of `expected_length` bytes.
    pub fn new(expected_length: usize) -> (r: PieceAssembly)
        ensures
            r@ == empty_assembly(expected_length as nat),
    {
        let buffer: Vec<u8> = vec![0u8; expected_length];
        let filled: Vec<bool> = vec![false; expected_length];
        let r = PieceAssembly { buffer, filled };
        assert(r@.buffer =~= empty_assembly(expected_length as nat).buffer);
        assert(r@.filled =~= empty_assembly(expected_length as nat).filled);
        r
    }

    /// The piece's length.
    pub fn expected_length(&self) -> (r: usize)
        requires
            self@.wf(),
        ensures
            r == self@.buffer.len(),
    {
        self.buffer.len()
    }

    /// Writes `bytes` at `offset`. Fails with `OutOfRange` when the block
    /// reaches past the piece and with `DuplicateBlock` when part of its range
    /// has already arrived; a failed call changes nothing.
    pub fn accept_block(&mut self, offset: usize, bytes: &[u8]) -> (r: Result<(), AssemblyError>)
        requires
            old(self)@.wf(),
        ensures
            final(self)@.wf(),
            match accept_spec(old(self)@, offset as int, bytes@) {
                Ok(v) => r is Ok && final(self)@ == v,
                Err(e) => r == Err::<(), AssemblyError>(e) && final(self)@ == old(self)@,
            },
    {
        let len = self.buffer.len();
        if offset > len || bytes.len() > len - offset {
            return Err(AssemblyError::OutOfRange);
        }
        let end = offset + bytes.len();
        let mut i: usize = offset;
        while i < end
            invariant
                offset <= i <= end <= self@.buffer.len(),
                end == offset + bytes@.len(),
                self@.wf(),
                self@ == old(self)@,
                forall|j: int| offset <= j < i ==> !#[trigger] self@.filled[j],
            decreases end - i,
        {
            if self.filled[i] {
                assert(old(self)@.filled[i as int]);
                assert(!old(self)@.range_free(offset as int, bytes@.len() as int));
                return Err(AssemblyError::DuplicateBlock);
            }
            i = i + 1;
        }
        assert(old(self)@.range_free(offset as int, bytes@.len() as int));
        let ghost target = accept_spec(old(self)@, offset as int, bytes@)->Ok_0;
        let mut k: usize = offset;
        while k < end
            invariant
                offset <= k <= end <= self@.buffer.len(),
                end == offset + bytes@.len(),
                self@.wf(),
                self@.buffer.len() == old(self)@.buffer.len(),
                accept_spec(old(self)@, offset as int, bytes@) == Ok::<AssemblyView, AssemblyError>(target),
                old(self)@.wf(),
                target.buffer.len() == self@.buffer.len(),
                target.filled.len() == self@.buffer.len(),
                forall|j: int|
                    0 <= j < self@.buffer.len() && !(k <= j < end) ==> #[trigger] self@.buffer[j]
                        == target.buffer[j],
                forall|j: int|
                    0 <= j < self@.buffer.len() && !(k <= j < end) ==> #[trigger] self@.filled[j]
                        == target.filled[j],
            decreases end - k,
        {
            self.buffer.set(k, bytes[k - offset]);
            self.filled.set(k, true);
            k = k + 1;
        }
        assert(self@.buffer =~= target.buffer);
        assert(self@.filled =~= target.filled);
        Ok(())
    }

    /// Whether every byte of the piece has arrived.
    pub fn is_complete(&self) -> (r: bool)
        ensures
            r == self@.complete(),
    {
        let mut i: usize = 0;
        while i < self.filled.len()
            invariant
                i <= self@.filled.len(),
                forall|j: int| 0 <= j < i ==> #[trigger] self@.filled[j],
            decreases self@.filled.len() - i,
        {
            if !self.filled[i] {
                return false;
            }
            i = i + 1;
        }
        true
    }

    /// The assembled bytes, once verified against `expected_hash`. Fails with
    /// `Incomplete` while a byte is missing, and with `HashMismatch` when the
    /// SHA-1 digest of the bytes differs from `expected_hash`.
    pub fn finalize(self, expected_hash: &[u8]) -> (r: Result<Vec<u8>, AssemblyError>)
        requires
            self@.wf(),
        ensures
            !self@.complete() ==> r == Err::<Vec<u8>, AssemblyError>(AssemblyError::Incomplete),
            self@.complete() ==> verdict(r, self@.buffer, sha1_of(self@.buffer), expected_hash@),
    {
        if !self.is_complete() {
            return Err(AssemblyError::Incomplete);
        }
        let digest = sha1_digest(self.buffer.as_slice());
        check_digest(self.buffer, digest.as_slice(), expected_hash)
    }
}

/// `r` is the bytes when the digest equals the expected hash, and
/// `HashMismatch` otherwise.
pub open spec fn verdict(r: Result<Vec<u8>, AssemblyError>, bytes: Seq<u8>, digest: Seq<u8>, expected: Seq<u8>) -> bool {
    if digest == expected {
        r is Ok && r->Ok_0@ == bytes
    } else {
        r == Err::<Vec<u8>, AssemblyError>(AssemblyError::HashMismatch)
    }
}

/// Releases `bytes` when `digest`, their computed digest, equals
/// `expected_hash`.
pub fn check_digest(bytes: Vec<u8>, digest: &[u8], expected_hash: &[u8]) -> (r: Result<Vec<u8>, AssemblyError>)
    ensures
        verdict(r, bytes@, digest@, expected_hash@),
{
    if bytes_equal(digest, expected_hash) {
        Ok(bytes)
    } else {
        Err(AssemblyError::HashMismatch)
    }
}

/// Accepting a non-empty block a second time fails with `DuplicateBlock`
/// (and a failed accept leaves the assembly as it was).
pub proof fn lemma_accept_twice_is_duplicate(a: AssemblyView, offset: int, bytes: Seq<u8>)
    requires
        a.wf(),
        bytes.len() > 0,
        0 <= offset,
        accept_spec(a, offset, bytes) is Ok,
    ensures
        accept_spec(accept_spec(a, offset, bytes)->Ok_0, offset, bytes) == Err::<AssemblyView, AssemblyError>(
            AssemblyError::DuplicateBlock,
        ),
{
    let b = accept_spec(a, offset, bytes)->Ok_0;
    assert(b.filled[offset]);
}

/// A fresh assembly agrees with any content of its length.
pub proof fn lemma_empty_agrees(content: Seq<u8>)
    ensures
        empty_assembly(content.len()).agrees_with(content),
{
}

/// Accepting a block cut from `content` at its own offset keeps the
/// assembly in agreement with `content`, whatever arrived before.
pub proof fn lemma_accept_keeps_agreement(a: AssemblyView, content: Seq<u8>, offset: int, len: int)
    requires
        a.agrees_with(content),
        0 <= offset,
        0 <= len,
        offset + len <= content.len(),
        accept_spec(a, offset, content.subrange(offset, offset + len)) is Ok,
    ensures
        accept_spec(a, offset, content.subrange(offset, offset + len))->Ok_0.agrees_with(content),
{
}

/// A complete assembly that agrees with `content` holds exactly `content`;
/// finalizing it succeeds with `content` under the content's digest and
/// fails with `HashMismatch` under any other hash.
pub proof fn lemma_finalize_integrity(a: AssemblyView, content: Seq<u8>, expected: Seq<u8>, r: Result<Vec<u8>, AssemblyError>)
    requires
        a.agrees_with(content),
        a.complete(),
        verdict(r, a.buffer, sha1_of(a.buffer), expected),
    ensures
        a.buffer == content,
        expected == sha1_of(content) ==> r is Ok && r->Ok_0@ == content,
        expected != sha1_of(content) ==> r == Err::<Vec<u8>, AssemblyError>(AssemblyError::HashMismatch),
{
    assert forall|i: int| 0 <= i < content.len() implies a.buffer[i] == content[i] by {
        assert(a.filled[i]);
    }
    assert(a.buffer =~= content);
}

} // verus!
