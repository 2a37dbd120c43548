use sync_clipboard::crypto::{decrypt, encrypt, key_from_password, CryptoError, NONCE_LEN, TAG_LEN};

#[test]
fn key_is_sha256_of_password() {
    let expected: [u8; 32] = [
        0xba, 0x78, 0x16, 0xbf, 0x8f, 0x01, 0xcf, 0xea, 0x41, 0x41, 0x40, 0xde, 0x5d, 0xae, 0x22,
        0x23, 0xb0, 0x03, 0x61, 0xa3, 0x96, 0x17, 0x7a, 0x9c, 0xb4, 0x10, 0xff, 0x61, 0xf2, 0x00,
        0x15, 0xad,
    ];
    assert_eq!(key_from_password("abc"), expected);
    assert_eq!(key_from_password("abc"), key_from_password("abc"));
    assert_ne!(key_from_password("abc"), key_from_password("abd"));
}

#[test]
fn encrypt_then_decrypt_round_trips() {
    let key = key_from_password("secret");
    let env = encrypt(b"clipboard", &key).unwrap();
    assert_eq!(env.len(), NONCE_LEN + 9 + TAG_LEN);
    assert_ne!(&env[NONCE_LEN..NONCE_LEN + 9], b"clipboard");
    assert_eq!(decrypt(&env, &key).unwrap(), b"clipboard".to_vec());
    let empty = encrypt(&[], &key).unwrap();
    assert_eq!(decrypt(&empty, &key).unwrap(), Vec::<u8>::new());
}

#[test]
fn any_flipped_bit_fails_authentication() {
    let key = key_from_password("secret");
    let env = encrypt(b"tamper me", &key).unwrap();
    for byte in 0..env.len() {
        for bit in 0..8 {
            let mut bad = env.clone();
            bad[byte] ^= 1 << bit;
            assert_eq!(decrypt(&bad, &key), Err(CryptoError::AuthFailure));
        }
    }
}

#[test]
fn wrong_key_fails_authentication() {
    let env = encrypt(b"data", &key_from_password("one")).unwrap();
    assert_eq!(decrypt(&env, &key_from_password("two")), Err(CryptoError::AuthFailure));
}

#[test]
fn short_envelope_fails_authentication() {
    let key = key_from_password("secret");
    assert_eq!(decrypt(&[0u8; 5], &key), Err(CryptoError::AuthFailure));
    assert_eq!(decrypt(&[], &key), Err(CryptoError::AuthFailure));
    assert_eq!(decrypt(&[0u8; 20], &key), Err(CryptoError::AuthFailure));
}

#[test]
fn nonces_differ_between_encryptions() {
    let key = key_from_password("secret");
    let a = encrypt(b"same", &key).unwrap();
    let b = encrypt(b"same", &key).unwrap();
    assert_ne!(a[..NONCE_LEN], b[..NONCE_LEN]);
    assert_ne!(a[NONCE_LEN..], b[NONCE_LEN..]);
}
