//! The incremental interface: chunking invariance, the session life
//! cycle, and the errors of calls on a finalized session.

use blake2b::{hash, new_session, HashError};

fn pattern(len: usize) -> Vec<u8> {
    (0..len).map(|i| (i.wrapping_mul(7) % 253) as u8).collect()
}

fn hash_in_pieces(data: &[u8], piece_lens: &[usize], digest_len: usize, key: &Vec<u8>) -> Vec<u8> {
    let mut session = new_session(digest_len, key).unwrap();
    let mut at = 0;
    for &len in piece_lens {
        let piece: Vec<u8> = data[at..at + len].to_vec();
        session.update(&piece).unwrap();
        at += len;
    }
    assert_eq!(at, data.len());
    session.finalize().unwrap()
}

#[test]
fn chunking_invariance() {
    let data = pattern(256);
    let whole = hash(&data, 64, &vec![]).unwrap();
    assert_eq!(hash_in_pieces(&data, &[256], 64, &vec![]), whole);
    assert_eq!(hash_in_pieces(&data, &[1, 255], 64, &vec![]), whole);
    assert_eq!(hash_in_pieces(&data, &[128, 128], 64, &vec![]), whole);
    assert_eq!(hash_in_pieces(&data, &[127, 1, 128], 64, &vec![]), whole);
    assert_eq!(hash_in_pieces(&data, &[10, 10, 10, 226], 64, &vec![]), whole);
    let ones: Vec<usize> = vec![1; 256];
    assert_eq!(hash_in_pieces(&data, &ones, 64, &vec![]), whole);
}

#[test]
fn chunking_invariance_keyed() {
    let data = pattern(300);
    let key = pattern(17);
    let whole = hash(&data, 32, &key).unwrap();
    assert_eq!(hash_in_pieces(&data, &[300], 32, &key), whole);
    assert_eq!(hash_in_pieces(&data, &[129, 171], 32, &key), whole);
    assert_eq!(hash_in_pieces(&data, &[44, 128, 128], 32, &key), whole);
}

#[test]
fn empty_updates_are_a_no_op() {
    let data = pattern(200);
    let whole = hash(&data, 64, &vec![]).unwrap();
    let mut session = new_session(64, &vec![]).unwrap();
    session.update(&vec![]).unwrap();
    session.update(&data).unwrap();
    session.update(&vec![]).unwrap();
    assert_eq!(session.finalize().unwrap(), whole);
}

#[test]
fn session_equivalent_to_one_shot_empty() {
    let mut session = new_session(64, &vec![]).unwrap();
    let digest = session.finalize().unwrap();
    assert_eq!(digest, hash(&vec![], 64, &vec![]).unwrap());
}

#[test]
fn update_after_finalize_fails() {
    let mut session = new_session(64, &vec![]).unwrap();
    session.update(&pattern(10)).unwrap();
    session.finalize().unwrap();
    assert_eq!(
        session.update(&pattern(5)),
        Err(HashError::SessionClosedError)
    );
}

#[test]
fn finalize_twice_fails() {
    let mut session = new_session(64, &vec![]).unwrap();
    session.update(&pattern(10)).unwrap();
    session.finalize().unwrap();
    assert_eq!(session.finalize(), Err(HashError::SessionClosedError));
}

#[test]
fn new_session_rejects_bad_configuration() {
    assert!(matches!(
        new_session(0, &vec![]),
        Err(HashError::ConfigurationError)
    ));
    assert!(matches!(
        new_session(65, &vec![]),
        Err(HashError::ConfigurationError)
    ));
    assert!(matches!(
        new_session(32, &pattern(65)),
        Err(HashError::ConfigurationError)
    ));
    assert!(new_session(1, &vec![]).is_ok());
    assert!(new_session(64, &pattern(64)).is_ok());
}
