//! The download coordinator: which piece goes to which peer next, and what
//! a success or a failure does to the work set. The caller runs the
//! attempts and reports back.

use vstd::prelude::*;

verus! {

/// Where one piece stands.
#[derive(Debug, Clone, Copy, PartialEq, Eq, Structural)]
pub enum PieceState {
    /// Not yet completed and ready for an attempt.
    Waiting,
    /// An attempt is running.
    InFlight,
    /// Verified bytes were recorded.
    Verified,
    /// Every allowed attempt failed.
    Exhausted,
}

/// One attempt to hand to a worker.
#[derive(Debug, Clone, Copy, PartialEq, Eq, Structural)]
pub struct Assignment {
    pub piece_index: usize,
    pub peer_index: usize,
    /// How many attempts on this piece came before, from zero.
    pub attempt: u32,
}

/// The final outcome of one piece.
#[derive(Debug, Clone)]
pub enum DownloadOutcome {
    Verified(Vec<u8>),
    RetriesExhausted,
    /// The piece never got a terminal outcome.
    Unfinished,
}

/// The peer for attempt `attempt` on piece `piece`: round-robin by piece
/// index, moved on by one for each earlier attempt.
pub open spec fn peer_for(piece: int, attempt: int, peer_count: int) -> int {
    (piece + attempt) % peer_count
}

/// The coordinator's state as mathematics.
pub struct CoordinatorView {
    pub peer_count: nat,
    pub max_attempts: nat,
    pub states: Seq<PieceState>,
    pub attempts: Seq<nat>,
    pub pieces: Seq<Seq<u8>>,
}

impl CoordinatorView {
    pub open spec fn wf(self) -> bool {
        &&& self.peer_count > 0
        &&& self.max_attempts > 0
        &&& self.attempts.len() == self.states.len()
        &&& self.pieces.len() == self.states.len()
        &&& forall|i: int| 0 <= i < self.states.len() ==> #[trigger] self.attempts[i] <= self.max_attempts
        &&& forall|i: int| 0 <= i < self.states.len() && #[trigger] self.states[i] == PieceState::Waiting
            ==> self.attempts[i] < self.max_attempts
        &&& forall|i: int| 0 <= i < self.states.len() && #[trigger] self.states[i] == PieceState::Exhausted
            ==> self.attempts[i] == self.max_attempts
    }

    /// Every piece has a terminal outcome.
    pub open spec fn finished(self) -> bool {
        forall|i: int| 0 <= i < self.states.len() ==> #[trigger] self.states[i] == PieceState::Verified
            || self.states[i] == PieceState::Exhausted
    }

    /// Piece `i` is the lowest-numbered waiting piece.
    pub open spec fn first_waiting(self, i: int) -> bool {
        &&& 0 <= i < self.states.len()
        &&& self.states[i] == PieceState::Waiting
        &&& forall|j: int| 0 <= j < i ==> #[trigger] self.states[j] != PieceState::Waiting
    }

    pub open spec fn has_waiting(self) -> bool {
        exists|i: int| 0 <= i < self.states.len() && #[trigger] self.states[i] == PieceState::Waiting
    }
}

/// The state at the start: every piece waiting, no attempt made.
pub open spec fn initial(piece_count: nat, peer_count: nat, max_attempts: nat) -> CoordinatorView {
    CoordinatorView {
        peer_count,
        max_attempts,
        states: Seq::new(piece_count, |i: int| PieceState::Waiting),
        attempts: Seq::new(piece_count, |i: int| 0nat),
        pieces: Seq::new(piece_count, |i: int| Seq::<u8>::empty()),
    }
}

/// The state after piece `i` is handed out.
pub open spec fn after_assign(v: CoordinatorView, i: int) -> CoordinatorView {
    CoordinatorView {
        states: v.states.update(i, PieceState::InFlight),
        attempts: v.attempts.update(i, v.attempts[i] + 1),
        ..v
    }
}

/// The state after an attempt on piece `i` failed: back to waiting, or
/// exhausted once the budget is spent.
pub open spec fn after_failure(v: CoordinatorView, i: int) -> CoordinatorView {
    CoordinatorView {
        states: v.states.update(
            i,
            if v.attempts[i] >= v.max_attempts {
                PieceState::Exhausted
            } else {
                PieceState::Waiting
            },
        ),
        ..v
    }
}

/// The state after an attempt on piece `i` brought verified `bytes`.
pub open spec fn after_success(v: CoordinatorView, i: int, bytes: Seq<u8>) -> CoordinatorView {
    CoordinatorView {
        states: v.states.update(i, PieceState::Verified),
        pieces: v.pieces.update(i, bytes),
        ..v
    }
}

/// Owns the work set and the outcome of every piece.
pub struct Coordinator {
    peer_count: usize,
    max_attempts: u32,
    states: Vec<PieceState>,
    attempts: Vec<u32>,
    pieces: Vec<Vec<u8>>,
}

impl View for Coordinator {
    type V = CoordinatorView;

    closed spec fn view(&self) -> CoordinatorView {
        CoordinatorView {
            peer_count: self.peer_count as nat,
            max_attempts: self.max_attempts as nat,
            states: self.states@,
            attempts: self.attempts@.map_values(|a: u32| a as nat),
            pieces: self.pieces@.map_values(|p: Vec<u8>| p@),
        }
    }
}

impl Coordinator {
    /// A coordinator for `piece_count` pieces over `peer_count` peers, with
    /// at most `max_attempts` attempts per piece.
    pub fn new(piece_count: usize, peer_count: usize, max_attempts: u32) -> (r: Coordinator)
        requires
            peer_count > 0,
            max_attempts > 0,
        ensures
            r@ == initial(piece_count as nat, peer_count as nat, max_attempts as nat),
            r@.wf(),
    {
        let states: Vec<PieceState> = vec![PieceState::Waiting; piece_count];
        let attempts: Vec<u32> = vec![0u32; piece_count];
        let mut pieces: Vec<Vec<u8>> = Vec::new();
        let mut k: usize = 0;
        while k < piece_count
            invariant
                k <= piece_count,
                pieces@.len() == k,
                forall|j: int| 0 <= j < k ==> (#[trigger] pieces@[j])@ == Seq::<u8>::empty(),
            decreases piece_count - k,
        {
            pieces.push(Vec::new());
            k = k + 1;
        }
        let r = Coordinator { peer_count, max_attempts, states, attempts, pieces };
        let ghost want = initial(piece_count as nat, peer_count as nat, max_attempts as nat);
        assert(r@.states =~= want.states);
        assert(r@.attempts =~= want.attempts);
        assert(r@.pieces =~= want.pieces);
        r
    }

    /// How many pieces there are.
    pub fn piece_count(&self) -> (r: usize)
        requires
            self@.wf(),
        ensures
            r == self@.states.len(),
    {
        self.states.len()
    }

    /// Where piece `i` stands.
    pub fn state(&self, i: usize) -> (r: PieceState)
        requires
            self@.wf(),
            i < self@.states.len(),
        ensures
            r == self@.states[i as int],
    {
        self.states[i]
    }

    /// Hands out the lowest-numbered waiting piece, marks it in flight and
    /// counts the attempt; its peer is `(piece + earlier attempts) mod
    /// peer_count`. `None`, with nothing changed, when no piece is waiting.
    pub fn next_assignment(&mut self) -> (r: Option<Assignment>)
        requires
            old(self)@.wf(),
        ensures
            final(self)@.wf(),
            match r {
                None => !old(self)@.has_waiting() && final(self)@ == old(self)@,
                Some(a) => {
                    &&& old(self)@.first_waiting(a.piece_index as int)
                    &&& a.attempt == old(self)@.attempts[a.piece_index as int]
                    &&& a.peer_index == peer_for(
                        a.piece_index as int,
                        a.attempt as int,
                        old(self)@.peer_count as int,
                    )
                    &&& final(self)@ == after_assign(old(self)@, a.piece_index as int)
                },
            },
    {
        let mut i: usize = 0;
        while i < self.states.len()
            invariant
                self@ == old(self)@,
                self@.wf(),
                i <= self@.states.len(),
                forall|j: int| 0 <= j < i ==> #[trigger] self@.states[j] != PieceState::Waiting,
            decreases self@.states.len() - i,
        {
            if self.states[i] == PieceState::Waiting {
                let attempt = self.attempts[i];
                assert(self@.attempts[i as int] == attempt as nat);
                let n = self.peer_count as u128;
                let peer_index = (((i as u128) % n + (attempt as u128) % n) % n) as usize;
                proof {
                    vstd::arithmetic::div_mod::lemma_add_mod_noop(
                        i as int,
                        attempt as int,
                        self.peer_count as int,
                    );
                }
                let ghost before = self@;
                self.states.set(i, PieceState::InFlight);
                self.attempts.set(i, attempt + 1);
                proof {
                    let want = after_assign(before, i as int);
                    assert(self@.states =~= want.states);
                    assert(self@.attempts =~= want.attempts);
                    assert(self@.pieces =~= want.pieces);
                }
                return Some(Assignment { piece_index: i, peer_index, attempt });
            }
            i = i + 1;
        }
        None
    }

    /// Records verified bytes for a piece in flight and returns `true`; for
    /// any other piece (already complete, exhausted, waiting or out of range)
    /// it returns `false` and changes nothing.
    pub fn record_success(&mut self, piece_index: usize, bytes: Vec<u8>) -> (r: bool)
        requires
            old(self)@.wf(),
        ensures
            final(self)@.wf(),
            r == (piece_index < old(self)@.states.len() && old(self)@.states[piece_index as int]
                == PieceState::InFlight),
            r ==> final(self)@ == after_success(old(self)@, piece_index as int, bytes@),
            !r ==> final(self)@ == old(self)@,
    {
        if piece_index >= self.states.len() || self.states[piece_index] != PieceState::InFlight {
            return false;
        }
        let ghost before = self@;
        let ghost b = bytes@;
        self.states.set(piece_index, PieceState::Verified);
        self.pieces.set(piece_index, bytes);
        proof {
            let want = after_success(before, piece_index as int, b);
            assert(self@.states =~= want.states);
            assert(self@.attempts =~= want.attempts);
            assert(self@.pieces =~= want.pieces);
        }
        true
    }

    /// Records a failed attempt on a piece in flight and returns `true`: the
    /// piece waits for another attempt, or is exhausted once its budget is
    /// spent. For any other piece it returns `false` and changes nothing.
    pub fn record_failure(&mut self, piece_index: usize) -> (r: bool)
        requires
            old(self)@.wf(),
        ensures
            final(self)@.wf(),
            r == (piece_index < old(self)@.states.len() && old(self)@.states[piece_index as int]
                == PieceState::InFlight),
            r ==> final(self)@ == after_failure(old(self)@, piece_index as int),
            !r ==> final(self)@ == old(self)@,
    {
        if piece_index >= self.states.len() || self.states[piece_index] != PieceState::InFlight {
            return false;
        }
        let ghost before = self@;
        assert(self@.attempts[piece_index as int] == self.attempts@[piece_index as int] as nat);
        if self.attempts[piece_index] >= self.max_attempts {
            self.states.set(piece_index, PieceState::Exhausted);
        } else {
            self.states.set(piece_index, PieceState::Waiting);
        }
        proof {
            let want = after_failure(before, piece_index as int);
            assert(self@.states =~= want.states);
            assert(self@.attempts =~= want.attempts);
            assert(self@.pieces =~= want.pieces);
        }
        true
    }

    /// Whether every piece has a terminal outcome.
    pub fn is_finished(&self) -> (r: bool)
        ensures
            r == self@.finished(),
    {
        let mut i: usize = 0;
        while i < self.states.len()
            invariant
                i <= self@.states.len(),
                forall|j: int| 0 <= j < i ==> #[trigger] self@.states[j] == PieceState::Verified
                    || self@.states[j] == PieceState::Exhausted,
            decreases self@.states.len() - i,
        {
            if self.states[i] != PieceState::Verified && self.states[i] != PieceState::Exhausted {
                return false;
            }
            i = i + 1;
        }
        true
    }

    /// The outcome of every piece, by index.
    pub fn into_outcomes(self) -> (r: Vec<DownloadOutcome>)
        requires
            self@.wf(),
        ensures
            r@.len() == self@.states.len(),
            forall|i: int| 0 <= i < r@.len() ==> outcome_matches(#[trigger] r@[i], self@, i),
    {
        let ghost v = self@;
        let mut pieces = self.pieces;
        let states = self.states;
        let mut out: Vec<DownloadOutcome> = Vec::new();
        let mut i: usize = 0;
        while i < states.len()
            invariant
                i <= states@.len(),
                states@ == v.states,
                pieces@.len() == v.states.len(),
                forall|j: int| i <= j < pieces@.len() ==> (#[trigger] pieces@[j])@ == v.pieces[j],
                v.pieces.len() == v.states.len(),
                out@.len() == i,
                forall|j: int| 0 <= j < i ==> outcome_matches(#[trigger] out@[j], v, j),
            decreases states@.len() - i,
        {
            let o = match states[i] {
                PieceState::Verified => {
                    let mut taken: Vec<u8> = Vec::new();
                    std::mem::swap(&mut taken, &mut pieces[i]);
                    DownloadOutcome::Verified(taken)
                },
                PieceState::Exhausted => DownloadOutcome::RetriesExhausted,
                _ => DownloadOutcome::Unfinished,
            };
            out.push(o);
            i = i + 1;
        }
        out
    }
}

/// `o` is the outcome that piece `i` has in `v`.
pub open spec fn outcome_matches(o: DownloadOutcome, v: CoordinatorView, i: int) -> bool {
    match v.states[i] {
        PieceState::Verified => o is Verified && o->Verified_0@ == v.pieces[i],
        PieceState::Exhausted => o is RetriesExhausted,
        _ => o is Unfinished,
    }
}

/// The state after `n` rounds in which piece `i` is handed out and the
/// attempt fails.
pub open spec fn failed_rounds(v: CoordinatorView, i: int, n: nat) -> CoordinatorView
    decreases n,
{
    if n == 0 {
        v
    } else {
        failed_rounds(after_failure(after_assign(v, i), i), i, (n - 1) as nat)
    }
}

/// When every attempt on a waiting piece fails, the piece waits again after
/// each failure until its budget is spent, and is exhausted after the last
/// one; no other piece changes meanwhile.
pub proof fn lemma_failures_exhaust(v: CoordinatorView, i: int, m: nat)
    requires
        v.wf(),
        0 <= i < v.states.len(),
        v.states[i] == PieceState::Waiting,
        v.attempts[i] + m <= v.max_attempts,
    ensures
        failed_rounds(v, i, m).wf(),
        failed_rounds(v, i, m).attempts[i] == v.attempts[i] + m,
        failed_rounds(v, i, m).states[i] == if m > 0 && v.attempts[i] + m == v.max_attempts {
            PieceState::Exhausted
        } else {
            PieceState::Waiting
        },
        failed_rounds(v, i, m).states.len() == v.states.len(),
        failed_rounds(v, i, m).peer_count == v.peer_count,
        failed_rounds(v, i, m).max_attempts == v.max_attempts,
        forall|j: int| 0 <= j < v.states.len() && j != i ==> #[trigger] failed_rounds(v, i, m).states[j] == v.states[j]
            && failed_rounds(v, i, m).attempts[j] == v.attempts[j] && failed_rounds(v, i, m).pieces[j] == v.pieces[j],
    decreases m,
{
    if m > 0 {
        let w = after_failure(after_assign(v, i), i);
        assert(w.attempts[i] == v.attempts[i] + 1);
        assert forall|j: int| 0 <= j < w.states.len() implies #[trigger] w.attempts[j] <= w.max_attempts by {
            if j != i { assert(w.attempts[j] == v.attempts[j]); }
        }
        assert forall|j: int| 0 <= j < w.states.len() && #[trigger] w.states[j] == PieceState::Waiting
            implies w.attempts[j] < w.max_attempts by {
            if j != i { assert(w.states[j] == v.states[j]); }
        }
        assert forall|j: int| 0 <= j < w.states.len() && #[trigger] w.states[j] == PieceState::Exhausted
            implies w.attempts[j] == w.max_attempts by {
            if j != i { assert(w.states[j] == v.states[j]); }
        }
        assert(w.wf());
        assert(failed_rounds(v, i, m) == failed_rounds(w, i, (m - 1) as nat));
        if m > 1 {
            lemma_failures_exhaust(w, i, (m - 1) as nat);
        } else {
            assert(failed_rounds(w, i, 0) == w);
        }
    }
}

/// Rotating by attempt, a piece reaches every peer within `peer_count`
/// attempts.
pub proof fn lemma_rotation_reaches_every_peer(piece: int, peer_count: int, peer: int)
    requires
        piece >= 0,
        peer_count > 0,
        0 <= peer < peer_count,
    ensures
        exists|a: int| 0 <= a < peer_count && #[trigger] peer_for(piece, a, peer_count) == peer,
{
    let r = piece % peer_count;
    let q = piece / peer_count;
    vstd::arithmetic::div_mod::lemma_fundamental_div_mod(piece, peer_count);
    let a = if peer >= r { peer - r } else { peer + peer_count - r };
    if peer >= r {
        assert(piece + a == peer_count * q + peer);
        vstd::arithmetic::div_mod::lemma_mod_multiples_vanish(q, peer, peer_count);
    } else {
        assert(piece + a == peer_count * (q + 1) + peer) by (nonlinear_arith)
            requires piece == peer_count * q + r, a == peer + peer_count - r;
        vstd::arithmetic::div_mod::lemma_mod_multiples_vanish(q + 1, peer, peer_count);
    }
    vstd::arithmetic::div_mod::lemma_small_mod(peer as nat, peer_count as nat);
    assert(peer_for(piece, a, peer_count) == peer);
}

} // verus!
