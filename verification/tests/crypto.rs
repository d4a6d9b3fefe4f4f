use zenithdb::crypto::envelope::{
    decrypt, decrypt_with, encrypt, encrypt_with, is_encrypted, EnvelopeError,
};
use zenithdb::crypto::root::{DataKey, RootKey, RootKeyError, StaticRootKey};

fn root() -> StaticRootKey {
    StaticRootKey::new([0x42; 32])
}

#[test]
fn roundtrip_short() {
    let ct = encrypt(b"hello", &root()).unwrap();
    assert!(is_encrypted(&ct));
    let pt = decrypt(&ct, &root()).unwrap();
    assert_eq!(pt, b"hello");
}

#[test]
fn roundtrip_large() {
    let plain = vec![0xab; 2 * 1024 * 1024];
    let ct = encrypt(&plain, &root()).unwrap();
    let pt = decrypt(&ct, &root()).unwrap();
    assert_eq!(pt, plain);
}

#[test]
fn tamper_rejected() {
    let mut ct = encrypt(b"important", &root()).unwrap();
    let last = ct.len() - 1;
    ct[last] ^= 0xff;
    let r = decrypt(&ct, &root());
    assert!(matches!(r, Err(EnvelopeError::Aead(_))));
}

#[test]
fn wrong_root_key_rejected() {
    let ct = encrypt(b"important", &root()).unwrap();
    let other = StaticRootKey::new([0x99; 32]);
    let r = decrypt(&ct, &other);
    assert!(matches!(r, Err(EnvelopeError::Root(_))));
}

#[test]
fn legacy_bytes_not_recognized() {
    assert!(!is_encrypted(b"ZENSEGV1"));
}

#[test]
fn malformed_envelopes_are_told_apart() {
    let ct = encrypt(b"x", &root()).unwrap();
    assert!(matches!(
        decrypt(&ct[..10], &root()),
        Err(EnvelopeError::TooShort)
    ));
    let mut bad = ct.clone();
    bad[0] ^= 1;
    assert!(matches!(decrypt(&bad, &root()), Err(EnvelopeError::BadMagic)));
    assert!(!is_encrypted(&bad));
    let mut old = ct.clone();
    old[4] = 9;
    assert!(matches!(
        decrypt(&old, &root()),
        Err(EnvelopeError::UnsupportedVersion(9))
    ));
}

#[test]
fn envelope_of_given_keys_and_nonces() {
    let key = DataKey([3; 32]);
    let blob = encrypt_with(
        b"payload",
        &key,
        [9; 12],
        Ok((vec![5u8; 12], vec![6u8; 48])),
    )
    .unwrap();
    assert!(is_encrypted(&blob));
    // The payload is sealed under the data key, whatever wrapped that.
    assert_eq!(decrypt_with(&blob, Ok(DataKey([3; 32]))).unwrap(), b"payload");
    assert!(matches!(
        decrypt_with(&blob, Ok(DataKey([4; 32]))),
        Err(EnvelopeError::Aead(_))
    ));
    assert!(matches!(
        decrypt_with(&blob, Err(RootKeyError::Kms("down".into()))),
        Err(EnvelopeError::Root(_))
    ));
    assert!(matches!(
        encrypt_with(b"p", &key, [9; 12], Err(RootKeyError::InvalidLength)),
        Err(EnvelopeError::Root(_))
    ));
}

fn random_root_key() -> StaticRootKey {
    StaticRootKey::new(rand::random())
}

fn random_data_key() -> DataKey {
    DataKey(rand::random())
}

#[test]
fn wrap_unwrap_roundtrip() {
    let root = random_root_key();
    let dk = random_data_key();
    let original_bytes = dk.0;

    let (nonce, wrapped) = root.wrap(&dk).expect("wrap");
    assert_eq!(nonce.len(), 12);
    // AES-GCM wrap of 32 bytes plaintext: 32 ciphertext + 16 tag = 48.
    assert_eq!(wrapped.len(), 48);

    let recovered = match root.unwrap(&nonce, &wrapped) {
        Ok(k) => k,
        Err(_) => panic!("unwrap"),
    };
    assert_eq!(recovered.0, original_bytes);
}

#[test]
fn from_slice_round_trips_for_32_bytes() {
    let mut bytes = [0u8; 32];
    for (i, b) in bytes.iter_mut().enumerate() {
        *b = (i as u8).wrapping_mul(7).wrapping_add(13);
    }
    let key = match StaticRootKey::from_slice(&bytes) {
        Ok(k) => k,
        Err(_) => panic!("from_slice"),
    };
    // Wrap/unwrap a fresh data key as a smoke test.
    let dk = random_data_key();
    let (nonce, wrapped) = key.wrap(&dk).expect("wrap");
    let recovered = match key.unwrap(&nonce, &wrapped) {
        Ok(k) => k,
        Err(_) => panic!("unwrap"),
    };
    assert_eq!(recovered.0, dk.0);

    // Reject lengths != 32.
    let too_short = StaticRootKey::from_slice(&bytes[..16]);
    assert!(matches!(too_short, Err(RootKeyError::InvalidLength)));
    let too_long = StaticRootKey::from_slice(&[0u8; 64]);
    assert!(matches!(too_long, Err(RootKeyError::InvalidLength)));
}

#[test]
fn wrong_root_key_fails_to_unwrap_with_kms_error() {
    let real = random_root_key();
    let imposter = random_root_key();
    let dk = random_data_key();

    let (nonce, wrapped) = real.wrap(&dk).expect("wrap");
    let r = imposter.unwrap(&nonce, &wrapped);
    assert!(
        matches!(r, Err(RootKeyError::Kms(_))),
        "expected RootKeyError::Kms, got {:?}",
        r.as_ref().err()
    );
}

#[test]
fn wrap_nonces_are_non_deterministic() {
    let root = random_root_key();
    let dk = random_data_key();

    let mut nonces = std::collections::HashSet::new();
    let mut wraps = std::collections::HashSet::new();
    for _ in 0..16 {
        let (nonce, wrapped) = root.wrap(&dk).expect("wrap");
        assert!(
            nonces.insert(nonce.clone()),
            "duplicate wrap nonce: RNG broken"
        );
        assert!(
            wraps.insert(wrapped),
            "duplicate ciphertext: wrap is deterministic across calls"
        );
    }
    assert_eq!(nonces.len(), 16);
}

#[test]
fn tampered_ciphertext_fails_to_unwrap() {
    let root = random_root_key();
    let dk = random_data_key();
    let (nonce, mut wrapped) = root.wrap(&dk).expect("wrap");

    // Flip the last byte of the AEAD tag: must not decrypt to a valid
    // data key.
    let last = wrapped.len() - 1;
    wrapped[last] = wrapped[last].wrapping_add(7) | 1;
    let r = root.unwrap(&nonce, &wrapped);
    assert!(
        matches!(r, Err(RootKeyError::Kms(_))),
        "tampered ciphertext should be rejected, got {:?}",
        r.as_ref().err()
    );

    // And tampering somewhere in the middle (the body) must also fail.
    let (nonce2, mut wrapped2) = root.wrap(&dk).expect("wrap");
    wrapped2[5] = wrapped2[5].wrapping_add(3) | 1;
    let r2 = root.unwrap(&nonce2, &wrapped2);
    assert!(matches!(r2, Err(RootKeyError::Kms(_))));
}

#[test]
fn wrong_nonce_length_fails_with_kms_error() {
    let root = random_root_key();
    let dk = random_data_key();
    let (_nonce, wrapped) = root.wrap(&dk).expect("wrap");

    // 11 bytes != 12: must be rejected up front.
    let bad_nonce = vec![0u8; 11];
    let r = root.unwrap(&bad_nonce, &wrapped);
    assert!(matches!(r, Err(RootKeyError::Kms(_))));
}

#[test]
fn data_key_clone_is_independent_and_drops_safely() {
    let dk = random_data_key();
    let original = dk.0;
    {
        let cloned = dk.clone();
        assert_eq!(cloned.0, original, "clone must preserve bytes");
    }
    // Original still readable after clone drops.
    assert_eq!(dk.0, original);
}

#[test]
fn envelopes_add_their_header_and_tag() {
    for n in [0usize, 1, 1000] {
        let blob = encrypt(&vec![7u8; n], &root()).unwrap();
        assert_eq!(blob.len(), n + 93);
        assert_eq!(decrypt(&blob, &root()).unwrap(), vec![7u8; n]);
    }
}

#[test]
fn keys_are_wiped() {
    let mut key = DataKey([7; 32]);
    let copy = key.clone();
    key.zeroize();
    assert_eq!(key.0, [0; 32]);
    assert_eq!(copy.0, [7; 32]);

    let mut root_key = root();
    let (nonce, wrapped) = root_key.wrap_with(&copy, [1; 12]).unwrap();
    root_key.zeroize();
    assert!(root_key.unwrap(&nonce, &wrapped).is_err());
    let zero = StaticRootKey::new([0; 32]);
    assert_eq!(
        root_key.wrap_with(&copy, [1; 12]).unwrap(),
        zero.wrap_with(&copy, [1; 12]).unwrap()
    );
    assert!(std::mem::needs_drop::<DataKey>());
    assert!(std::mem::needs_drop::<StaticRootKey>());
}
