use stream_crypto::engine::Crypto;
use stream_crypto::error::Error;
use stream_crypto::keys::{load_secret, KeyMaterial};

#[test]
fn stored_secret_of_right_length_is_used_verbatim() {
    let stored: Vec<u8> = (0..32u8).collect();
    let s = load_secret(Some(stored.clone()), 32).unwrap();
    assert_eq!(s.bytes, stored);
    assert!(!s.generated);
}

#[test]
fn key_blob_of_31_or_33_bytes_is_rejected() {
    for len in [31usize, 33] {
        match load_secret(Some(vec![7u8; len]), 32) {
            Err(Error::InvalidSize { expected, actual }) => {
                assert_eq!(expected, 32);
                assert_eq!(actual, len);
            },
            other => panic!("unexpected {:?}", other.map(|s| s.bytes.len())),
        }
        let r = KeyMaterial::load_or_create(Some(vec![7u8; len]), Some(vec![0u8; 24]));
        assert!(matches!(r, Err(Error::InvalidSize { expected: 32, actual }) if actual == len));
    }
}

#[test]
fn nonce_blob_of_wrong_length_is_rejected() {
    let r = KeyMaterial::load_or_create(Some(vec![1u8; 32]), Some(vec![0u8; 23]));
    assert!(matches!(r, Err(Error::InvalidSize { expected: 24, actual: 23 })));
    let r = KeyMaterial::from_parts(vec![1u8; 32], vec![0u8; 25]);
    assert!(matches!(r, Err(Error::InvalidSize { expected: 24, actual: 25 })));
    let r = KeyMaterial::from_parts(vec![1u8; 0], vec![0u8; 24]);
    assert!(matches!(r, Err(Error::InvalidSize { expected: 32, actual: 0 })));
}

#[test]
fn missing_secret_is_generated_with_its_length() {
    let s = load_secret(None, 24).unwrap();
    assert_eq!(s.bytes.len(), 24);
    assert!(s.generated);
}

#[test]
fn second_load_of_persisted_material_is_identical() {
    let (first, key_new, nonce_new) = KeyMaterial::load_or_create(None, None).unwrap();
    assert!(key_new && nonce_new);
    let key = first.key_bytes().clone();
    let nonce = first.nonce_bytes().clone();
    assert_eq!(key.len(), 32);
    assert_eq!(nonce.len(), 24);
    let (second, key_new, nonce_new) = KeyMaterial::load_or_create(Some(key.clone()), Some(nonce.clone())).unwrap();
    assert!(!key_new && !nonce_new);
    assert_eq!(second.key_bytes(), &key);
    assert_eq!(second.nonce_bytes(), &nonce);
    let (third, _, _) = KeyMaterial::load_or_create(Some(key.clone()), Some(nonce.clone())).unwrap();
    assert_eq!(third.into_parts(), (key, nonce));
}

#[test]
fn engine_refuses_malformed_stored_key() {
    for len in [31usize, 33] {
        let r = Crypto::new(Some(vec![5u8; len]), Some(vec![0u8; 24]), 64);
        assert!(matches!(r, Err(Error::InvalidSize { expected: 32, actual }) if actual == len));
    }
    let r = Crypto::new(Some(vec![5u8; 32]), Some(vec![0u8; 25]), 64);
    assert!(matches!(r, Err(Error::InvalidSize { expected: 24, actual: 25 })));
}

#[test]
fn engine_reloads_the_persisted_material() {
    let (first, key_new, nonce_new) = Crypto::new(None, None, 64).unwrap();
    assert!(key_new && nonce_new);
    let (m, _, _) = KeyMaterial::load_or_create(None, None).unwrap();
    let (key, nonce) = m.into_parts();
    let (a, kg, ng) = Crypto::new(Some(key.clone()), Some(nonce.clone()), 64).unwrap();
    assert!(!kg && !ng);
    let (b, _, _) = Crypto::new(Some(key), Some(nonce), 64).unwrap();
    let plain = vec![3u8; 100];
    assert_eq!(a.encrypt(&plain).unwrap(), b.encrypt(&plain).unwrap());
    assert_eq!(b.decrypt(&a.encrypt(&plain).unwrap()).unwrap(), plain);
    assert_eq!(first.buffer_len(), 64);
}

#[test]
fn io_errors_convert_into_the_io_variant() {
    let e: Error = std::io::Error::new(std::io::ErrorKind::NotFound, "gone").into();
    assert!(matches!(e, Error::IOError(ref inner) if inner.kind() == std::io::ErrorKind::NotFound));
}

#[test]
fn aead_errors_convert_into_the_encryption_variant() {
    let e: Error = chacha20poly1305::aead::Error.into();
    assert!(matches!(e, Error::EncryptionError));
}
