use base64::engine::general_purpose;
use base64::Engine;
use password_manager::crypto::{decrypt_password, encrypt_password};
use password_manager::errors::StoreError;
use password_manager::hashing::{generate_salt, hash_password};

fn demo_salt() -> Vec<u8> {
    let mut salt = Vec::new();
    let mut i: u8 = 0;
    while salt.len() < 32 {
        salt.push(i);
        i = i.wrapping_add(7);
    }
    salt
}

#[test]
fn generate_salt_shape() {
    let salt = generate_salt();
    assert_eq!(salt.len(), 44);
    let decoded = general_purpose::STANDARD.decode(&salt).unwrap();
    assert_eq!(decoded.len(), 32);
}

#[test]
fn generate_salt_fresh_each_time() {
    let a = generate_salt();
    let b = generate_salt();
    assert_ne!(a, b);
}

#[test]
fn derivation_deterministic() {
    let k1 = hash_password("correct horse", demo_salt()).unwrap();
    let k2 = hash_password("correct horse", demo_salt()).unwrap();
    assert_eq!(k1, k2);
}

#[test]
fn derivation_sensitive_to_password() {
    let k1 = hash_password("correct horse", demo_salt()).unwrap();
    let k2 = hash_password("correct horsf", demo_salt()).unwrap();
    assert_ne!(k1, k2);
}

#[test]
fn derivation_sensitive_to_salt() {
    let mut other = demo_salt();
    other[0] ^= 1;
    let k1 = hash_password("correct horse", demo_salt()).unwrap();
    let k2 = hash_password("correct horse", other).unwrap();
    assert_ne!(k1, k2);
}

#[test]
fn derivation_rejects_short_salt() {
    let r = hash_password("pw", vec![1, 2, 3]);
    assert_eq!(r, Err(StoreError::KeyDerivation));
}

#[test]
fn encrypt_decrypt_round_trip() {
    let key = hash_password("master", demo_salt()).unwrap();
    let (ciphertext, nonce) = encrypt_password(&key, "s3cret").unwrap();
    assert_eq!(ciphertext.len(), "s3cret".len() + 16);
    let nonce_b64 = general_purpose::STANDARD.encode(nonce);
    let ct_b64 = general_purpose::STANDARD.encode(&ciphertext);
    let plain = decrypt_password(&key, &nonce_b64, &ct_b64).unwrap();
    assert_eq!(plain, "s3cret");
}

#[test]
fn empty_plaintext_round_trip() {
    let key = hash_password("master", demo_salt()).unwrap();
    let (ciphertext, nonce) = encrypt_password(&key, "").unwrap();
    assert_eq!(ciphertext.len(), 16);
    let nonce_b64 = general_purpose::STANDARD.encode(nonce);
    let ct_b64 = general_purpose::STANDARD.encode(&ciphertext);
    let plain = decrypt_password(&key, &nonce_b64, &ct_b64).unwrap();
    assert_eq!(plain, "");
}

#[test]
fn wrong_password_rejected() {
    let key1 = hash_password("right password", demo_salt()).unwrap();
    let key2 = hash_password("wrong password", demo_salt()).unwrap();
    let (ciphertext, nonce) = encrypt_password(&key1, "s3cret").unwrap();
    let nonce_b64 = general_purpose::STANDARD.encode(nonce);
    let ct_b64 = general_purpose::STANDARD.encode(&ciphertext);
    let r = decrypt_password(&key2, &nonce_b64, &ct_b64);
    assert_eq!(r, Err(StoreError::Authentication));
}

#[test]
fn nonces_never_repeat() {
    let key = [0x42u8; 32];
    let mut nonces: Vec<[u8; 12]> = Vec::new();
    for _ in 0..10_000 {
        let (_, nonce) = encrypt_password(&key, "x").unwrap();
        nonces.push(nonce);
    }
    nonces.sort();
    for i in 1..nonces.len() {
        assert_ne!(nonces[i - 1], nonces[i]);
    }
}

#[test]
fn tamper_detection_every_bit() {
    let key = hash_password("master", demo_salt()).unwrap();
    let (ciphertext, nonce) = encrypt_password(&key, "attack at dawn").unwrap();
    let nonce_b64 = general_purpose::STANDARD.encode(nonce);
    for byte in 0..ciphertext.len() {
        for bit in 0..8 {
            let mut tampered = ciphertext.clone();
            tampered[byte] ^= 1u8 << bit;
            let ct_b64 = general_purpose::STANDARD.encode(&tampered);
            let r = decrypt_password(&key, &nonce_b64, &ct_b64);
            assert_eq!(r, Err(StoreError::Authentication));
        }
    }
}

#[test]
fn malformed_fields_are_persistence_errors() {
    let key = [7u8; 32];
    let (ciphertext, nonce) = encrypt_password(&key, "pw").unwrap();
    let nonce_b64 = general_purpose::STANDARD.encode(nonce);
    let ct_b64 = general_purpose::STANDARD.encode(&ciphertext);
    // nonce that is not base64 at all
    assert_eq!(
        decrypt_password(&key, "!!!not base64!!!", &ct_b64),
        Err(StoreError::Persistence)
    );
    // valid base64 but not 12 bytes of nonce
    let short = general_purpose::STANDARD.encode([1u8, 2, 3]);
    assert_eq!(
        decrypt_password(&key, &short, &ct_b64),
        Err(StoreError::Persistence)
    );
    // ciphertext that is not base64
    assert_eq!(
        decrypt_password(&key, &nonce_b64, "@@@"),
        Err(StoreError::Persistence)
    );
}
