use lanpeer::aead::{AeadError, Aes256GcmEncryption};

fn pseudo_random(n: usize, seed: u32) -> Vec<u8> {
    let mut x = seed;
    (0..n)
        .map(|_| {
            x = x.wrapping_mul(1_664_525).wrapping_add(1_013_904_223);
            (x >> 24) as u8
        })
        .collect()
}

fn frame_lengths(stream: &[u8]) -> Vec<u32> {
    let mut out = Vec::new();
    let mut pos = 0;
    loop {
        let len = u32::from_be_bytes([stream[pos], stream[pos + 1], stream[pos + 2], stream[pos + 3]]);
        out.push(len);
        pos += 4 + len as usize;
        if len == 0 {
            break;
        }
    }
    assert_eq!(pos, stream.len());
    out
}

#[test]
fn new_checks_lengths() {
    assert!(matches!(Aes256GcmEncryption::new(vec![0; 31], vec![0; 12]), Err(AeadError::InvalidKeyLength(31))));
    assert!(matches!(Aes256GcmEncryption::new(vec![0; 32], vec![0; 11]), Err(AeadError::InvalidNonceLength(11))));
    assert!(Aes256GcmEncryption::new(vec![0; 32], vec![0; 12]).is_ok());
}

#[test]
fn nonce_increments_little_endian() {
    let mut n = [0u8; 12];
    Aes256GcmEncryption::increment_nonce(&mut n);
    assert_eq!(n, [1, 0, 0, 0, 0, 0, 0, 0, 0, 0, 0, 0]);
    let mut n = [255, 255, 7, 0, 0, 0, 0, 0, 0, 0, 0, 0];
    Aes256GcmEncryption::increment_nonce(&mut n);
    assert_eq!(n, [0, 0, 8, 0, 0, 0, 0, 0, 0, 0, 0, 0]);
    let mut n = [255u8; 12];
    Aes256GcmEncryption::increment_nonce(&mut n);
    assert_eq!(n, [0u8; 12]);
}

#[test]
fn single_message_round_trip() {
    let c = Aes256GcmEncryption::new(vec![7; 32], vec![3; 12]).unwrap();
    let pt = b"attack at dawn".to_vec();
    let ct = c.encrypt(&pt).unwrap();
    assert_eq!(ct.len(), pt.len() + 16);
    assert_ne!(&ct[..pt.len()], &pt[..]);
    assert_eq!(c.decrypt(&ct).unwrap(), pt);
    let mut bad = ct.clone();
    bad[0] ^= 1;
    assert!(matches!(c.decrypt(&bad), Err(AeadError::AuthFailed)));
    assert!(matches!(c.decrypt(&[1, 2, 3]), Err(AeadError::AuthFailed)));
}

#[test]
fn session_key_round_trip() {
    let c = Aes256GcmEncryption::new(vec![0; 32], vec![0; 12]).unwrap();
    let key = vec![9u8; 32];
    let ct = c.encrypt_with_key(b"hello", &key).unwrap();
    assert_ne!(ct, c.encrypt(b"hello").unwrap());
    assert_eq!(c.decrypt_with_key(&ct, &key).unwrap(), b"hello".to_vec());
    assert!(matches!(c.encrypt_with_key(b"x", &[0; 16]), Err(AeadError::InvalidKeyLength(16))));
    assert!(matches!(c.decrypt_with_key(&ct, &[0; 31]), Err(AeadError::InvalidKeyLength(31))));
}

#[test]
fn stream_round_trip_of_4500_bytes() {
    let key = vec![0u8; 32];
    let nonce = vec![0u8; 12];
    let c = Aes256GcmEncryption::new(key.clone(), nonce.clone()).unwrap();
    let pt = pseudo_random(4500, 42);
    let stream = c.encrypt_stream(&pt, &key, &nonce).unwrap();
    assert_eq!(frame_lengths(&stream), vec![1040, 1040, 1040, 1040, 420, 0]);
    assert_eq!(stream.len(), 4604);
    assert_eq!(c.encrypt_stream(&pt, &key, &nonce).unwrap(), stream);
    let back = c.decrypt_stream(&stream, &key, &nonce).unwrap();
    assert_eq!(back, pt);
}

#[test]
fn stream_chunks_use_successive_nonces() {
    let key = vec![1u8; 32];
    let nonce = vec![0u8; 12];
    let c = Aes256GcmEncryption::new(key.clone(), nonce.clone()).unwrap();
    let pt = vec![5u8; 2048];
    let stream = c.encrypt_stream(&pt, &key, &nonce).unwrap();
    let first = &stream[4..4 + 1040];
    let second = &stream[4 + 1040 + 4..4 + 1040 + 4 + 1040];
    assert_ne!(first, second);
    let mut n1 = vec![0u8; 12];
    n1[0] = 1;
    let c1 = Aes256GcmEncryption::new(key.clone(), n1).unwrap();
    assert_eq!(c1.decrypt(second).unwrap(), vec![5u8; 1024]);
}

#[test]
fn stream_edges_and_failures() {
    let key = vec![2u8; 32];
    let nonce = vec![4u8; 12];
    let c = Aes256GcmEncryption::new(key.clone(), nonce.clone()).unwrap();
    let empty = c.encrypt_stream(&[], &key, &nonce).unwrap();
    assert_eq!(empty, vec![0, 0, 0, 0]);
    assert_eq!(c.decrypt_stream(&empty, &key, &nonce).unwrap(), Vec::<u8>::new());
    assert_eq!(c.decrypt_stream(&[0, 0], &key, &nonce).unwrap(), Vec::<u8>::new());
    let stream = c.encrypt_stream(b"some data", &key, &nonce).unwrap();
    assert!(matches!(c.decrypt_stream(&stream[..10], &key, &nonce), Err(AeadError::Truncated)));
    let mut bad = stream.clone();
    bad[6] ^= 0x40;
    assert!(matches!(c.decrypt_stream(&bad, &key, &nonce), Err(AeadError::AuthFailed)));
    assert!(matches!(c.encrypt_stream(b"x", &key, &[0; 8]), Err(AeadError::InvalidNonceLength(8))));
    assert!(matches!(c.decrypt_stream(&stream, &[0; 3], &nonce), Err(AeadError::InvalidKeyLength(3))));
}
