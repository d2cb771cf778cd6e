use bittorrent::assembler::{check_digest, AssemblyError, PieceAssembly};

// SHA-1 of "abc".
const ABC_SHA1: [u8; 20] = [
    0xa9, 0x99, 0x3e, 0x36, 0x47, 0x06, 0x81, 0x6a, 0xba, 0x3e, 0x25, 0x71, 0x78, 0x50, 0xc2,
    0x6c, 0x9c, 0xd0, 0xd8, 0x9d,
];

#[test]
fn duplicate_block_is_rejected_and_harmless() {
    let mut a = PieceAssembly::new(6);
    assert_eq!(a.accept_block(0, b"abc"), Ok(()));
    let complete_before = a.is_complete();
    assert_eq!(a.accept_block(0, b"abc"), Err(AssemblyError::DuplicateBlock));
    assert_eq!(a.is_complete(), complete_before);
    assert_eq!(a.accept_block(3, b"def"), Ok(()));
    assert!(a.is_complete());
    let mut b = PieceAssembly::new(6);
    b.accept_block(0, b"abc").unwrap();
    b.accept_block(3, b"def").unwrap();
    assert_eq!(b.accept_block(3, b"def"), Err(AssemblyError::DuplicateBlock));
    assert!(b.is_complete());
    assert_eq!(b.accept_block(2, b"zz"), Err(AssemblyError::DuplicateBlock));
}

#[test]
fn out_of_range_block() {
    let mut a = PieceAssembly::new(4);
    assert_eq!(a.accept_block(2, b"abc"), Err(AssemblyError::OutOfRange));
    assert_eq!(a.accept_block(5, b""), Err(AssemblyError::OutOfRange));
    assert_eq!(a.accept_block(usize::MAX, b"a"), Err(AssemblyError::OutOfRange));
    assert!(!a.is_complete());
}

#[test]
fn finalize_correct_hash_any_order() {
    let mut a = PieceAssembly::new(3);
    a.accept_block(2, b"c").unwrap();
    a.accept_block(0, b"a").unwrap();
    a.accept_block(1, b"b").unwrap();
    assert_eq!(a.finalize(&ABC_SHA1), Ok(b"abc".to_vec()));
}

#[test]
fn finalize_wrong_hash_fails() {
    let mut a = PieceAssembly::new(3);
    a.accept_block(0, b"abc").unwrap();
    let mut wrong = ABC_SHA1;
    wrong[19] ^= 1;
    assert_eq!(a.finalize(&wrong), Err(AssemblyError::HashMismatch));
}

#[test]
fn finalize_incomplete_fails() {
    let mut a = PieceAssembly::new(3);
    a.accept_block(0, b"ab").unwrap();
    assert_eq!(a.finalize(&ABC_SHA1), Err(AssemblyError::Incomplete));
}

#[test]
fn empty_piece_is_complete() {
    let a = PieceAssembly::new(0);
    assert!(a.is_complete());
    assert_eq!(a.expected_length(), 0);
}

#[test]
fn digest_comparison() {
    assert_eq!(check_digest(vec![1, 2], &[9, 9], &[9, 9]), Ok(vec![1, 2]));
    assert_eq!(check_digest(vec![1, 2], &[9, 9], &[9, 8]), Err(AssemblyError::HashMismatch));
}
