//! Digest values: the RFC 7693 test vectors, digest lengths, boundary
//! input sizes, and agreement with an independent BLAKE2b implementation.

use blake2::digest::{Mac, Update, VariableOutput};
use blake2::{Blake2bMac512, Blake2bVar};
use blake2b::{hash, HashError};

fn hex_to_bytes(s: &str) -> Vec<u8> {
    assert!(s.len() % 2 == 0);
    let chars: Vec<u8> = s.as_bytes().to_vec();
    let val = |c: u8| -> u8 {
        match c {
            b'0'..=b'9' => c - b'0',
            b'a'..=b'f' => c - b'a' + 10,
            b'A'..=b'F' => c - b'A' + 10,
            _ => panic!("not a hex digit"),
        }
    };
    let mut out = Vec::new();
    let mut i = 0;
    while i < chars.len() {
        out.push(val(chars[i]) * 16 + val(chars[i + 1]));
        i += 2;
    }
    out
}

fn reference_digest(data: &[u8], n: usize) -> Vec<u8> {
    let mut hasher = Blake2bVar::new(n).unwrap();
    hasher.update(data);
    let mut buf = vec![0u8; n];
    hasher.finalize_variable(&mut buf).unwrap();
    buf
}

fn pattern(len: usize) -> Vec<u8> {
    (0..len).map(|i| (i % 251) as u8).collect()
}

#[test]
fn empty_input_known_vector() {
    let expected = hex_to_bytes(
        "786a02f742015903c6c6fd852552d272912f4740e15847618a86e217f71f5419\
         d25e1031afee585313896444934eb04b903a685b1448b755d56f701afe9be2ce",
    );
    let digest = hash(&vec![], 64, &vec![]).unwrap();
    assert_eq!(digest, expected);
    assert_eq!(digest, reference_digest(&[], 64));
}

#[test]
fn abc_known_vector() {
    let expected = hex_to_bytes(
        "ba80a53f981c4d0d6a2797b69f12f6e94c212f14685ac4b74b12bb6fdbffa2d1\
         7d87c5392aab792dc252d5de4533cc9518d38aa8dbf1925ab92386edd4009923",
    );
    let digest = hash(&b"abc".to_vec(), 64, &vec![]).unwrap();
    assert_eq!(digest, expected);
    assert_eq!(digest, reference_digest(b"abc", 64));
}

#[test]
fn digest_has_requested_length() {
    let data = pattern(300);
    for len in 1..=64usize {
        let digest = hash(&data, len, &vec![]).unwrap();
        assert_eq!(digest.len(), len);
        assert_eq!(digest, reference_digest(&data, len));
    }
}

#[test]
fn empty_input_every_length_matches_reference() {
    for len in 1..=64usize {
        let digest = hash(&vec![], len, &vec![]).unwrap();
        assert_eq!(digest, reference_digest(&[], len));
    }
}

#[test]
fn deterministic() {
    let data = pattern(1000);
    let key = pattern(32);
    assert_eq!(
        hash(&data, 48, &key).unwrap(),
        hash(&data, 48, &key).unwrap()
    );
    assert_eq!(
        hash(&data, 17, &vec![]).unwrap(),
        hash(&data, 17, &vec![]).unwrap()
    );
}

#[test]
fn boundary_lengths_match_reference() {
    for len in [0usize, 1, 127, 128, 129, 255, 256, 257, 384, 1000] {
        let data = pattern(len);
        let digest = hash(&data, 64, &vec![]).unwrap();
        assert_eq!(digest, reference_digest(&data, 64), "input length {}", len);
    }
}

#[test]
fn keyed_digest_matches_reference_mac() {
    let data = pattern(200);
    let key = pattern(64);
    let digest = hash(&data, 64, &key).unwrap();
    let mut mac = Blake2bMac512::new_from_slice(&key).unwrap();
    Mac::update(&mut mac, &data);
    let expected = mac.finalize().into_bytes().to_vec();
    assert_eq!(digest, expected);
}

#[test]
fn keyed_short_key_matches_reference_mac() {
    let data = b"the quick brown fox".to_vec();
    let key = b"secret".to_vec();
    let digest = hash(&data, 64, &key).unwrap();
    let mut mac = Blake2bMac512::new_from_slice(&key).unwrap();
    Mac::update(&mut mac, &data);
    let expected = mac.finalize().into_bytes().to_vec();
    assert_eq!(digest, expected);
}

#[test]
fn different_keys_give_different_digests() {
    let data = pattern(100);
    let key_a = b"first key".to_vec();
    let key_b = b"other key".to_vec();
    let unkeyed = hash(&data, 64, &vec![]).unwrap();
    let with_a = hash(&data, 64, &key_a).unwrap();
    let with_b = hash(&data, 64, &key_b).unwrap();
    assert_ne!(with_a, with_b);
    assert_ne!(with_a, unkeyed);
    assert_ne!(with_b, unkeyed);
}

#[test]
fn keyed_empty_message() {
    let key = pattern(32);
    let digest = hash(&vec![], 32, &key).unwrap();
    assert_eq!(digest.len(), 32);
    assert_ne!(digest, hash(&vec![], 32, &vec![]).unwrap());
    assert_eq!(digest, hash(&vec![], 32, &key).unwrap());
}

#[test]
fn out_of_range_digest_length_fails() {
    assert_eq!(
        hash(&pattern(10), 0, &vec![]),
        Err(HashError::ConfigurationError)
    );
    assert_eq!(
        hash(&pattern(10), 65, &vec![]),
        Err(HashError::ConfigurationError)
    );
}

#[test]
fn over_long_key_fails() {
    let key = pattern(65);
    assert_eq!(hash(&pattern(10), 64, &key), Err(HashError::ConfigurationError));
    let key64 = pattern(64);
    assert!(hash(&pattern(10), 64, &key64).is_ok());
}
