use bittorrent::coordinator::{Coordinator, DownloadOutcome, PieceState};

#[test]
fn round_robin_first_attempts() {
    let mut c = Coordinator::new(5, 3, 2);
    let peers: Vec<usize> = (0..5).map(|_| c.next_assignment().unwrap().peer_index).collect();
    assert_eq!(peers, vec![0, 1, 2, 0, 1]);
    assert!(c.next_assignment().is_none());
}

#[test]
fn retry_rotates_to_next_peer() {
    let mut c = Coordinator::new(3, 3, 3);
    // Take pieces 0 and 1, then fail piece 1.
    c.next_assignment().unwrap();
    let a = c.next_assignment().unwrap();
    assert_eq!((a.piece_index, a.peer_index, a.attempt), (1, 1, 0));
    assert!(c.record_failure(1));
    let b = c.next_assignment().unwrap();
    assert_eq!((b.piece_index, b.peer_index, b.attempt), (1, 2, 1));
}

#[test]
fn failing_peer_is_bypassed() {
    // One piece, two peers; peer 0 always refuses the connection.
    let mut c = Coordinator::new(1, 2, 4);
    let content = b"piece".to_vec();
    while let Some(a) = c.next_assignment() {
        if a.peer_index == 0 {
            assert!(c.record_failure(a.piece_index));
        } else {
            assert!(c.record_success(a.piece_index, content.clone()));
        }
    }
    assert!(c.is_finished());
    assert_eq!(c.state(0), PieceState::Verified);
    match &c.into_outcomes()[0] {
        DownloadOutcome::Verified(b) => assert_eq!(b, &content),
        other => panic!("unexpected outcome {:?}", other),
    }
}

#[test]
fn budget_exhaustion_does_not_block_other_pieces() {
    let k = 3;
    let mut c = Coordinator::new(2, 2, k);
    let mut attempts_on_zero = 0;
    while let Some(a) = c.next_assignment() {
        if a.piece_index == 0 {
            attempts_on_zero += 1;
            assert!(c.record_failure(0));
        } else {
            assert!(c.record_success(1, vec![1, 2, 3]));
        }
    }
    assert_eq!(attempts_on_zero, k);
    assert!(c.is_finished());
    let outcomes = c.into_outcomes();
    assert!(matches!(outcomes[0], DownloadOutcome::RetriesExhausted));
    assert!(matches!(&outcomes[1], DownloadOutcome::Verified(b) if b == &vec![1, 2, 3]));
}

#[test]
fn completed_piece_is_not_reassigned() {
    let mut c = Coordinator::new(1, 1, 5);
    let a = c.next_assignment().unwrap();
    assert!(c.record_success(a.piece_index, vec![7]));
    assert!(!c.record_success(0, vec![8]));
    assert!(!c.record_failure(0));
    assert!(c.next_assignment().is_none());
    assert!(!c.record_failure(9));
    assert!(matches!(&c.into_outcomes()[0], DownloadOutcome::Verified(b) if b == &vec![7]));
}

#[test]
fn unfinished_pieces_are_reported() {
    let mut c = Coordinator::new(2, 1, 1);
    assert_eq!(c.piece_count(), 2);
    c.next_assignment().unwrap();
    assert!(!c.is_finished());
    let outcomes = c.into_outcomes();
    assert!(matches!(outcomes[0], DownloadOutcome::Unfinished));
    assert!(matches!(outcomes[1], DownloadOutcome::Unfinished));
}
