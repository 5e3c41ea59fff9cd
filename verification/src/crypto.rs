use vstd::prelude::*;

use crate::b64::{b64_decode, b64_of};
use crate::errors::StoreError;
use aes_gcm::aead::{Aead, KeyInit};
use aes_gcm::{Aes256Gcm, Nonce};
use rand::rngs::OsRng;
use rand::RngCore;
use vstd::utf8::{decode_utf8, encode_utf8, valid_utf8};

verus! {

/// Upper bound, in UTF-8 bytes, on a secret accepted for encryption.  Far
/// below AES-GCM's plaintext limit of 2^36 bytes, and small enough that the
/// base64 encoding of any ciphertext fits in a `usize` on every target.
pub const MAX_SECRET_LEN: usize = 0x0FFF_FFFF;

/// The AES-256-GCM sealing of a plaintext under a 32-byte key and a 12-byte
/// nonce: the ciphertext with its 16-byte integrity tag appended.
pub uninterp spec fn aead_seal(key: Seq<u8>, nonce: Seq<u8>, plaintext: Seq<u8>) -> Seq<u8>;

/// The AES-256-GCM opening of a ciphertext-with-tag under a 32-byte key and
/// a 12-byte nonce: the plaintext when the tag verifies, nothing otherwise.
pub uninterp spec fn aead_open(key: Seq<u8>, nonce: Seq<u8>, ciphertext: Seq<u8>) -> Option<
    Seq<u8>,
>;

/// Relies on rand's `OsRng::fill_bytes` for a cryptographically secure
/// random nonce.  Nothing can be promised of random contents.
#[verifier::external_body]
fn random_nonce() -> (r: [u8; 12])
{
    let mut a = [0u8; 12];
    OsRng.fill_bytes(&mut a);
    a
}

/// Relies on aes_gcm's `Aes256Gcm::encrypt` (via `new_from_slice` on a
/// 32-byte key): it appends the 16-byte tag to the ciphertext, fails only
/// for plaintexts over 2^36 bytes, and what it sealed, `decrypt` opens back
/// to the plaintext.
#[verifier::external_body]
fn aead_encrypt(key: &[u8; 32], nonce: &[u8], plaintext: &[u8]) -> (r: Option<Vec<u8>>)
    requires
        nonce@.len() == 12,
    ensures
        r matches Some(c) ==> ({
            &&& c@ == aead_seal(key@, nonce@, plaintext@)
            &&& c@.len() == plaintext@.len() + 16
            &&& aead_open(key@, nonce@, c@) == Some(plaintext@)
        }),
        plaintext@.len() <= 0x10_0000_0000u64 ==> r is Some,
{
    let cipher = match Aes256Gcm::new_from_slice(&key[..]) {
        Ok(c) => c,
        Err(_) => return None,
    };
    cipher.encrypt(Nonce::from_slice(nonce), plaintext).ok()
}

/// Relies on aes_gcm's `Aes256Gcm::decrypt`: it returns the plaintext
/// exactly when the integrity tag verifies, and fails otherwise.
#[verifier::external_body]
fn aead_decrypt(key: &[u8; 32], nonce: &[u8], ciphertext: &[u8]) -> (r: Option<Vec<u8>>)
    requires
        nonce@.len() == 12,
    ensures
        r matches Some(p) ==> aead_open(key@, nonce@, ciphertext@) == Some(p@),
        r is None ==> aead_open(key@, nonce@, ciphertext@) is None,
{
    let cipher = match Aes256Gcm::new_from_slice(&key[..]) {
        Ok(c) => c,
        Err(_) => return None,
    };
    cipher.decrypt(Nonce::from_slice(nonce), ciphertext).ok()
}

/// Relies on `String::from_utf8`: it succeeds exactly on valid UTF-8 and
/// returns the string those bytes encode.
#[verifier::external_body]
fn bytes_to_string(v: Vec<u8>) -> (r: Option<String>)
    ensures
        r matches Some(s) ==> s@ == decode_utf8(v@) && v@ == encode_utf8(s@),
        r is Some <==> valid_utf8(v@),
{
    String::from_utf8(v).ok()
}

/// Encrypts one entry's secret under the given derived key and a fresh
/// random nonce, never a caller-supplied one.  Returns the ciphertext with
/// its 16-byte tag appended, and the nonce that decryption will need.
pub fn encrypt_password(key: &[u8; 32], plaintext: &str) -> (r: Result<
    (Vec<u8>, [u8; 12]),
    StoreError,
>)
    requires
        encode_utf8(plaintext@).len() <= MAX_SECRET_LEN,
    ensures
        r is Ok,
        r matches Ok(cn) ==> ({
            &&& cn.0@ == aead_seal(key@, cn.1@, encode_utf8(plaintext@))
            &&& cn.0@.len() == encode_utf8(plaintext@).len() + 16
            &&& aead_open(key@, cn.1@, cn.0@) == Some(encode_utf8(plaintext@))
        }),
{
    let nonce = random_nonce();
    match aead_encrypt(key, nonce.as_slice(), plaintext.as_bytes()) {
        Some(c) => Ok((c, nonce)),
        None => {
            proof {
                assert(false);
            }
            Err(StoreError::KeyDerivation)
        },
    }
}

/// Decrypts one entry's stored secret: base64-decodes the nonce and the
/// ciphertext, opens the ciphertext under the given derived key, and decodes
/// the plaintext as UTF-8.  Malformed stored fields are a persistence
/// failure; a failed integrity tag (wrong master password or tampering) is
/// an authentication failure.
pub fn decrypt_password(key: &[u8; 32], nonce: &str, ciphertext: &str) -> (r: Result<
    String,
    StoreError,
>)
    ensures
        (!(exists|nb: Seq<u8>| nonce@ == b64_of(nb) && nb.len() == 12) || !(exists|cb: Seq<u8>|
            ciphertext@ == b64_of(cb))) ==> r == Err::<String, StoreError>(
            StoreError::Persistence,
        ),
        forall|nb: Seq<u8>, cb: Seq<u8>|
            (nonce@ == b64_of(nb) && nb.len() == 12 && ciphertext@ == b64_of(cb) && aead_open(
                key@,
                nb,
                cb,
            ) is None) ==> r == Err::<String, StoreError>(StoreError::Authentication),
        forall|nb: Seq<u8>, cb: Seq<u8>, p: Seq<u8>|
            (nonce@ == b64_of(nb) && nb.len() == 12 && ciphertext@ == b64_of(cb) && aead_open(
                key@,
                nb,
                cb,
            ) == Some(p)) ==> ((valid_utf8(p) ==> (r matches Ok(s) && s@ == decode_utf8(p))) && (
            !valid_utf8(p) ==> r == Err::<String, StoreError>(StoreError::Persistence))),
{
    let nonce_bytes = match b64_decode(nonce) {
        Some(v) => v,
        None => {
            return Err(StoreError::Persistence);
        },
    };
    if nonce_bytes.len() != 12 {
        return Err(StoreError::Persistence);
    }
    let ct_bytes = match b64_decode(ciphertext) {
        Some(v) => v,
        None => {
            return Err(StoreError::Persistence);
        },
    };
    match aead_decrypt(key, nonce_bytes.as_slice(), ct_bytes.as_slice()) {
        None => Err(StoreError::Authentication),
        Some(p) => match bytes_to_string(p) {
            Some(s) => Ok(s),
            None => Err(StoreError::Persistence),
        },
    }
}

} // verus!
