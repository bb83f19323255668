use chacha20poly1305::aead::Aead;
use chacha20poly1305::{KeyInit, XChaCha20Poly1305};
use stream_crypto::engine::{Crypto, Session, DEFAULT_BUFFER_LEN};
use stream_crypto::error::Error;
use stream_crypto::keys::KeyMaterial;
use stream_crypto::nonce::derive_frame_nonce;

fn material(seed: u8) -> KeyMaterial {
    let key: Vec<u8> = (0..32u8).map(|b| b.wrapping_mul(7).wrapping_add(seed)).collect();
    let nonce: Vec<u8> = (0..24u8).map(|b| b.wrapping_mul(13).wrapping_add(seed)).collect();
    KeyMaterial::from_parts(key, nonce).unwrap()
}

fn engine(chunk: usize) -> Crypto {
    Crypto::from_material(material(1), chunk)
}

fn sample(len: usize) -> Vec<u8> {
    (0..len).map(|i| (i * 31 % 251) as u8).collect()
}

#[test]
fn round_trip_over_lengths_and_chunk_sizes() {
    for chunk in [1usize, 2, 7, 16, 64] {
        let c = engine(chunk);
        for len in [0usize, 1, chunk - 1, chunk, chunk + 1, 2 * chunk, 3 * chunk + 5] {
            let plain = sample(len);
            let sealed = c.encrypt(&plain).unwrap();
            assert_eq!(c.decrypt(&sealed).unwrap(), plain, "chunk {} len {}", chunk, len);
        }
    }
}

#[test]
fn sealed_length_counts_one_tag_per_frame() {
    let c = engine(10);
    // frames = len / 10 + 1
    assert_eq!(c.encrypt(&sample(0)).unwrap().len(), 16);
    assert_eq!(c.encrypt(&sample(9)).unwrap().len(), 9 + 16);
    assert_eq!(c.encrypt(&sample(10)).unwrap().len(), 10 + 2 * 16);
    assert_eq!(c.encrypt(&sample(25)).unwrap().len(), 25 + 3 * 16);
    assert_eq!(c.encrypt(&sample(30)).unwrap().len(), 30 + 4 * 16);
}

#[test]
fn every_single_bit_flip_is_detected() {
    let c = engine(8);
    let plain = sample(20);
    let sealed = c.encrypt(&plain).unwrap();
    for byte in 0..sealed.len() {
        for bit in 0..8 {
            let mut tampered = sealed.clone();
            tampered[byte] ^= 1 << bit;
            assert!(matches!(c.decrypt(&tampered), Err(Error::EncryptionError)), "byte {} bit {}", byte, bit);
        }
    }
}

#[test]
fn truncated_or_extended_streams_are_rejected() {
    let c = engine(8);
    let sealed = c.encrypt(&sample(20)).unwrap();
    // Dropping the terminal frame leaves an interior frame at the end.
    let interior_only = sealed[..2 * 24].to_vec();
    assert!(matches!(c.decrypt(&interior_only), Err(Error::EncryptionError)));
    let mut longer = sealed.clone();
    longer.push(0);
    assert!(matches!(c.decrypt(&longer), Err(Error::EncryptionError)));
    assert!(matches!(c.decrypt(&Vec::new()), Err(Error::EncryptionError)));
}

#[test]
fn exact_multiple_ends_in_empty_terminal_frame() {
    let c = engine(4);
    let plain = sample(8);
    let sealed = c.encrypt(&plain).unwrap();
    assert_eq!(sealed.len(), 8 + 3 * 16);
    // The last frame is a bare tag.
    let mut session = Session::new();
    assert_eq!(c.decrypt_chunk(&mut session, &sealed[0..20].to_vec()).unwrap(), plain[0..4].to_vec());
    assert_eq!(c.decrypt_chunk(&mut session, &sealed[20..40].to_vec()).unwrap(), plain[4..8].to_vec());
    assert!(!session.is_finished());
    assert_eq!(c.decrypt_chunk(&mut session, &sealed[40..].to_vec()).unwrap(), Vec::<u8>::new());
    assert!(session.is_finished());
}

#[test]
fn wrong_key_or_chunk_size_fails() {
    let plain = sample(50);
    let sealed = engine(16).encrypt(&plain).unwrap();
    let other = Crypto::from_material(material(2), 16);
    assert!(matches!(other.decrypt(&sealed), Err(Error::EncryptionError)));
    assert!(matches!(engine(17).decrypt(&sealed), Err(Error::EncryptionError)));
}

#[test]
fn default_chunk_scenario_of_a_thousand_bytes() {
    let c = engine(DEFAULT_BUFFER_LEN);
    assert_eq!(DEFAULT_BUFFER_LEN, 512);
    let plain = vec![0xABu8; 1000];
    let mut session = Session::new();
    let first = c.encrypt_chunk(&mut session, &plain[..512].to_vec()).unwrap();
    assert_eq!(first.len(), 512 + 16);
    assert!(!session.is_finished());
    let second = c.encrypt_chunk(&mut session, &plain[512..].to_vec()).unwrap();
    assert_eq!(second.len(), 488 + 16);
    assert!(session.is_finished());
    let mut joined = first.clone();
    joined.extend_from_slice(&second);
    assert_eq!(c.encrypt(&plain).unwrap(), joined);
    assert_eq!(c.decrypt(&joined).unwrap(), plain);
}

#[test]
fn sessions_of_fresh_key_material_differ() {
    let a = Crypto::from_material(KeyMaterial::generate().unwrap(), 64);
    let b = Crypto::from_material(KeyMaterial::generate().unwrap(), 64);
    let plain = sample(200);
    let sa = a.encrypt(&plain).unwrap();
    let sb = b.encrypt(&plain).unwrap();
    assert_ne!(sa, sb);
    assert_eq!(a.decrypt(&sa).unwrap(), plain);
    assert_eq!(b.decrypt(&sb).unwrap(), plain);
}

#[test]
fn frame_nonce_layout() {
    let base: Vec<u8> = (100..124u8).collect();
    let n = derive_frame_nonce(&base, 0x0102_0304, false);
    let mut expected: Vec<u8> = (100..119u8).collect();
    expected.extend_from_slice(&[119 ^ 1, 120 ^ 2, 121 ^ 3, 122 ^ 4, 123]);
    assert_eq!(n, expected);
    let last = derive_frame_nonce(&base, 0, true);
    assert_eq!(&last[19..], &[119, 120, 121, 122, 123 ^ 1]);
}

#[test]
fn every_base_nonce_byte_changes_the_ciphertext() {
    let key: Vec<u8> = vec![9u8; 32];
    let base: Vec<u8> = (0..24u8).collect();
    let plain = sample(40);
    let reference = Crypto::from_material(KeyMaterial::from_parts(key.clone(), base.clone()).unwrap(), 16)
        .encrypt(&plain)
        .unwrap();
    for j in 0..24 {
        let mut other = base.clone();
        other[j] ^= 0x80;
        let c = Crypto::from_material(KeyMaterial::from_parts(key.clone(), other).unwrap(), 16);
        assert_ne!(c.encrypt(&plain).unwrap(), reference, "byte {}", j);
    }
}

#[test]
fn frames_are_aead_seals_under_derived_nonces() {
    let m = material(3);
    let key = m.key_bytes().clone();
    let nonce = m.nonce_bytes().clone();
    let c = Crypto::from_material(m, 5);
    let plain = sample(12);
    let cipher = XChaCha20Poly1305::new(chacha20poly1305::Key::from_slice(&key));
    let frame_nonce = |counter: u32, last: bool| {
        let mut n = nonce.clone();
        for (k, b) in counter.to_be_bytes().iter().enumerate() {
            n[19 + k] ^= b;
        }
        n[23] ^= last as u8;
        n
    };
    let mut expected = Vec::new();
    for (i, (lo, hi, last)) in [(0usize, 5usize, false), (5, 10, false), (10, 12, true)].iter().enumerate() {
        let n = frame_nonce(i as u32, *last);
        expected.extend(cipher.encrypt(chacha20poly1305::XNonce::from_slice(&n), &plain[*lo..*hi]).unwrap());
    }
    let sealed = c.encrypt(&plain).unwrap();
    assert_eq!(sealed, expected);
    assert_ne!(sealed[..12], plain[..]);
}

#[test]
fn terminal_chunk_finishes_the_session() {
    let c = engine(4);
    let mut session = Session::new();
    assert!(!session.is_finished());
    c.encrypt_chunk(&mut session, &vec![1, 2]).unwrap();
    assert!(session.is_finished());
    assert_eq!(c.buffer_len(), 4);
}
